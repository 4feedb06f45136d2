use ctddump::netcdf::common::base_file_name_checked;
use ctddump::convert::common::get_char_value2_chunk;
use ctddump::convert::common::AttributeValue;
use ctddump::convert::common_head::{
    collect_dimensions, collect_global_attributes, collect_variables_and_metadata, Dimension, VariableInfo,
};
use ctddump::netcdf::common::{
    create_platform_code, get_char_value, get_char_value2, get_char_vector3, get_coordinate_value,
};

fn s(x: &str) -> String {
    x.to_string()
}

fn bytes(x: &str) -> Vec<i8> {
    x.bytes().map(|b| b as i8).collect()
}

#[test]
fn a_missing_coordinate_is_filled() {
    let r = get_coordinate_value::<i32>(&None, 2, 3, -1).unwrap();
    assert_eq!(r, vec![-1; 6]);
}

#[test]
fn a_single_coordinate_is_broadcast_over_every_row() {
    let r = get_coordinate_value(&Some(vec![7i32]), 2, 3, -1).unwrap();
    assert_eq!(r, vec![7; 6]);
}

#[test]
fn a_coordinate_is_repeated_once_per_observation() {
    let r = get_coordinate_value(&Some(vec![1i32, 2]), 2, 3, -1).unwrap();
    assert_eq!(r, vec![1, 1, 1, 2, 2, 2]);
}

#[test]
fn char_values_are_one_character_strings() {
    assert_eq!(get_char_value(&Some(bytes("AB1")), 9).unwrap(), vec![s("A"), s("B"), s("1")]);
    assert_eq!(get_char_value(&None, 2).unwrap(), vec![s(" "), s(" ")]);
}

#[test]
fn fixed_width_names_drop_blanks_and_repeat_per_row() {
    let mut data = bytes("TEMP");
    data.push(0);
    data.extend(bytes("PS AL"));
    let r = get_char_value2(&Some(data), 2, 2, 5).unwrap();
    assert_eq!(r, vec![s("TEMP"), s("TEMP"), s("PSAL"), s("PSAL")]);
    assert_eq!(get_char_value2(&None, 2, 2, 5).unwrap(), vec![s(" "); 4]);
}

#[test]
fn char_vector_entries_repeat_per_row() {
    assert_eq!(get_char_vector3(&Some(bytes("XY")), 2).unwrap(), vec![s("X"), s("X"), s("Y"), s("Y")]);
    assert!(get_char_vector3(&None, 3).unwrap().is_empty());
}

#[test]
fn the_platform_code_is_repeated_for_every_row() {
    let attr = Some(AttributeValue::Str(s("6903240")));
    assert_eq!(create_platform_code(&attr, 3).unwrap(), vec![s("6903240"); 3]);
}

#[test]
fn dimensions_keep_the_last_length_of_a_name() {
    let dims = vec![
        Dimension { name: s("TIME"), len: 4 },
        Dimension { name: s("DEPTH"), len: 10 },
        Dimension { name: s("TIME"), len: 5 },
    ];
    let r = collect_dimensions(&dims);
    assert_eq!(r.len(), 2);
    assert!(r.contains(&(s("TIME"), 5)));
    assert!(r.contains(&(s("DEPTH"), 10)));
}

#[test]
fn variables_are_listed_once_with_their_type_and_dimensions() {
    let vars = vec![
        VariableInfo { name: s("TEMP"), data_type: s("float"), dimensions: vec![s("TIME"), s("DEPTH")] },
        VariableInfo { name: s("TIME"), data_type: s("double"), dimensions: vec![s("TIME")] },
    ];
    let r = collect_variables_and_metadata(vars);
    assert_eq!(r.len(), 2);
    let temp = r.iter().find(|e| e.0 == "TEMP").unwrap();
    assert_eq!(temp.1.data_type, "float");
    assert_eq!(temp.1.dimensions, vec![s("TIME"), s("DEPTH")]);
}

#[test]
fn global_attributes_record_strings_and_blank_the_rest() {
    let attrs = vec![
        (s("institution"), AttributeValue::Str(s("IFREMER"))),
        (s("history"), AttributeValue::Strs(vec![s("a"), s("b")])),
        (s("id"), AttributeValue::Other),
    ];
    let names = vec![s("institution"), s("history"), s("title")];
    let r = collect_global_attributes(&attrs, &names);
    assert_eq!(r.len(), 3);
    assert!(r.contains(&(s("institution"), s("IFREMER"))));
    assert!(r.contains(&(s("history"), s(""))));
    assert!(r.contains(&(s("title"), s(""))));
}

#[test]
fn the_base_file_name_is_the_stem_when_there_is_one() {
    assert_eq!(base_file_name_checked("./data/AR_PR_CT_ITP-71.nc"), Some(s("AR_PR_CT_ITP-71")));
    assert_eq!(base_file_name_checked("/"), None);
}

#[test]
fn profile_names_are_trimmed_at_both_ends_only() {
    let mut row0 = bytes(" AB 12");
    row0.push(0);
    row0.push(0);
    let rows = Some(vec![bytes("XX      "), row0, bytes("CD      ")]);
    let r = get_char_value2_chunk(&rows, 1, 2, 2, 8).unwrap();
    assert_eq!(r, vec![s("AB 12"), s("AB 12"), s("CD"), s("CD")]);
    assert_eq!(get_char_value2_chunk(&None, 0, 2, 2, 8).unwrap(), vec![s(" "); 4]);
    assert!(get_char_value2_chunk(&rows, 2, 2, 1, 8).is_err());
}
