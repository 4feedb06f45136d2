//! Batch planning: which files under a directory are processed, where each
//! output goes, and the refusal of a plan in which two sources share an output path.
//!
//! The directory walk and the per-file work are I/O and happen outside the
//! library; this module decides on the paths it is handed.

use vstd::prelude::*;

use crate::convert::common::{file_stem, path_file_stem};
use crate::error::CtdError;
use crate::text::{push_char, push_str, str_views};

verus! {

/// Whether `glob::Pattern::new` accepts `pattern`.
pub uninterp spec fn glob_pattern_valid(pattern: Seq<char>) -> bool;

/// Whether the glob `pattern` matches the whole of `name`, as
/// `glob::Pattern::matches` decides it with the default options.
pub uninterp spec fn glob_matches(pattern: Seq<char>, name: Seq<char>) -> bool;

/// What `std::path::Path::file_name` gives for `path`, when it is valid UTF-8.
pub uninterp spec fn path_file_name(path: Seq<char>) -> Option<Seq<char>>;

/// What `std::path::Path::join` gives for `base` and `part`.
pub uninterp spec fn path_join(base: Seq<char>, part: Seq<char>) -> Seq<char>;

/// What `std::path::Path::with_extension` gives for `path` and `ext`.
pub uninterp spec fn path_with_extension(path: Seq<char>, ext: Seq<char>) -> Seq<char>;

/// Whether `std::path::Path`'s `==` holds between `a` and `b` (it compares
/// the paths component by component).
pub uninterp spec fn paths_equal(a: Seq<char>, b: Seq<char>) -> bool;

#[verifier::external_type_specification]
#[verifier::external_body]
pub struct ExGlobPattern(glob::Pattern);

/// A filename glob, kept together with the text it was compiled from.
pub struct GlobPattern {
    text: String,
    compiled: glob::Pattern,
}

impl View for GlobPattern {
    type V = Seq<char>;

    closed spec fn view(&self) -> Seq<char> {
        self.text@
    }
}

/// Trusted: the body is `glob::Pattern::new`; the error is turned into its
/// message. `Pattern::new` only computes on the text, so whether it succeeds
/// is named by `glob_pattern_valid`.
#[verifier::external_body]
fn compile_glob(pattern: &str) -> (r: Result<glob::Pattern, String>)
    ensures
        r is Ok <==> glob_pattern_valid(pattern@),
{
    glob::Pattern::new(pattern).map_err(|e| e.to_string())
}

/// Trusted: the body is `glob::Pattern::matches` on the compiled pattern.
/// `GlobPattern::new`, its only constructor, compiles `compiled` from `text`,
/// so the answer is the one the glob `pat@` gives for `name`.
#[verifier::external_body]
fn glob_match(pat: &GlobPattern, name: &str) -> (r: bool)
    ensures
        r == glob_matches(pat@, name@),
{
    pat.compiled.matches(name)
}

/// Trusted: the body is `std::path::Path::file_name`, with the `OsStr`
/// turned back into a `String` (a name that is not UTF-8 gives `None`, as
/// `to_str` does).
#[verifier::external_body]
fn file_name(path: &str) -> (r: Option<String>)
    ensures
        r matches Some(s) ==> path_file_name(path@) == Some(s@),
        r is None ==> path_file_name(path@) is None,
{
    std::path::Path::new(path).file_name().and_then(|n| n.to_str()).map(|n| n.to_string())
}

/// The file name of `path`, when it has one that is valid UTF-8.
pub fn file_name_of(path: &str) -> (r: Option<String>)
    ensures
        r matches Some(s) ==> path_file_name(path@) == Some(s@),
        r is None ==> path_file_name(path@) is None,
{
    file_name(path)
}

/// Trusted: the body is `std::path::Path::join`; the joined path of two UTF-8
/// strings is UTF-8, so the lossy conversion back to a `String` loses nothing.
#[verifier::external_body]
pub(crate) fn join_path(base: &str, part: &str) -> (r: String)
    ensures
        r@ == path_join(base@, part@),
{
    std::path::Path::new(base).join(part).to_string_lossy().into_owned()
}

/// Trusted: the body is `std::path::Path::with_extension`, converted back to
/// a `String` as in `join_path`. It panics when `ext` holds a path separator,
/// which `requires` rules out (both `/` and `\\`, the separators of every
/// platform).
#[verifier::external_body]
fn with_extension(path: &str, ext: &str) -> (r: String)
    requires
        no_separator(ext@),
    ensures
        r@ == path_with_extension(path@, ext@),
{
    std::path::Path::new(path).with_extension(ext).to_string_lossy().into_owned()
}

/// `ext` holds no path separator: it can stand as a file extension.
pub open spec fn no_separator(ext: Seq<char>) -> bool {
    !ext.contains('/') && !ext.contains('\\')
}

/// Whether `ext` holds no path separator.
pub fn is_plain_extension(ext: &str) -> (r: bool)
    ensures
        r == no_separator(ext@),
{
    let cs = crate::order::chars_of(ext);
    let mut i: usize = 0;
    while i < cs.len()
        invariant
            i <= cs.len(),
            cs@ == ext@,
            forall|k: int| 0 <= k < i ==> cs@[k] != '/' && cs@[k] != '\\',
        decreases cs.len() - i,
    {
        if cs[i] == '/' || cs[i] == '\\' {
            proof {
                assert(ext@[i as int] == cs@[i as int]);
            }
            return false;
        }
        i += 1;
    }
    proof {
        if ext@.contains('/') {
            let k = choose|k: int| 0 <= k < ext@.len() && ext@[k] == '/';
            assert(cs@[k] == '/');
        }
        if ext@.contains('\\') {
            let k = choose|k: int| 0 <= k < ext@.len() && ext@[k] == '\\';
            assert(cs@[k] == '\\');
        }
    }
    true
}

/// Trusted: the body is `==` between two `std::path::Path`s.
#[verifier::external_body]
fn same_path(a: &str, b: &str) -> (r: bool)
    ensures
        r == paths_equal(a@, b@),
{
    std::path::Path::new(a) == std::path::Path::new(b)
}

impl GlobPattern {
    /// Compile `text`; an invalid glob is an error that names it.
    pub fn new(text: &str) -> (r: Result<GlobPattern, CtdError>)
        ensures
            r is Ok <==> glob_pattern_valid(text@),
            r matches Ok(p) ==> p@ == text@,
            r matches Err(e) ==> (e matches CtdError::InvalidPattern { pattern, .. } && pattern@
                == text@),
    {
        match compile_glob(text) {
            Ok(compiled) => Ok(GlobPattern { text: text.to_owned(), compiled }),
            Err(reason) => Err(CtdError::InvalidPattern { pattern: text.to_owned(), reason }),
        }
    }

    /// Whether the file name of `path` matches this glob; a path without a
    /// UTF-8 file name never matches.
    pub fn matches_file_name(&self, path: &str) -> (r: bool)
        ensures
            r == name_matches(self@, path@),
    {
        match file_name(path) {
            Some(name) => glob_match(self, name.as_str()),
            None => false,
        }
    }
}

/// The file name of `path` matches the glob `pattern`.
pub open spec fn name_matches(pattern: Seq<char>, path: Seq<char>) -> bool {
    path_file_name(path) matches Some(n) && glob_matches(pattern, n)
}

/// The paths of `paths` whose file name matches `pattern`, in their order.
pub open spec fn select_matching(paths: Seq<Seq<char>>, pattern: Seq<char>) -> Seq<Seq<char>>
    decreases paths.len(),
{
    if paths.len() == 0 {
        Seq::empty()
    } else {
        let prev = select_matching(paths.drop_last(), pattern);
        if name_matches(pattern, paths.last()) {
            prev.push(paths.last())
        } else {
            prev
        }
    }
}

/// Keep the files whose file name (not the full path) matches the glob
/// `pattern`. `files` are the regular files found under the source
/// directory, in the order of the walk. No match is not an error.
pub fn collect_nc_files(files: &Vec<String>, pattern: &str) -> (r: Result<Vec<String>, CtdError>)
    ensures
        r is Ok <==> glob_pattern_valid(pattern@),
        r matches Ok(v) ==> str_views(v@) == select_matching(str_views(files@), pattern@),
        r matches Err(e) ==> (e matches CtdError::InvalidPattern { pattern: p, .. } && p@
            == pattern@),
{
    let pat = match GlobPattern::new(pattern) {
        Ok(p) => p,
        Err(e) => return Err(e),
    };
    let mut out: Vec<String> = Vec::new();
    let mut i: usize = 0;
    while i < files.len()
        invariant
            i <= files.len(),
            pat@ == pattern@,
            str_views(out@) == select_matching(str_views(files@.take(i as int)), pattern@),
        decreases files.len() - i,
    {
        proof {
            let s = str_views(files@.take(i as int + 1));
            assert(s.drop_last() =~= str_views(files@.take(i as int)));
            assert(s.last() == files@[i as int]@);
        }
        if pat.matches_file_name(files[i].as_str()) {
            let f = files[i].clone();
            out.push(f);
            proof {
                assert(str_views(out@) =~= str_views(out@.drop_last()).push(f@));
            }
        }
        i += 1;
    }
    proof {
        assert(files@.take(files.len() as int) =~= files@);
    }
    Ok(out)
}

/// The file name of an output: the whole source stem, then `.` and the
/// extension (the stem alone for an empty extension).
pub open spec fn stem_with_ext(stem: Seq<char>, ext: Seq<char>) -> Seq<char> {
    if ext.len() == 0 {
        stem
    } else {
        stem + seq!['.'] + ext
    }
}

/// Where the output of `src` goes: flat into `output_dir`, named after the
/// source's whole stem, or beside the source; either way with the extension
/// `ext` in place of the source's own.
pub open spec fn output_path(src: Seq<char>, stem: Seq<char>, output_dir: Option<Seq<char>>, ext: Seq<char>) -> Seq<char> {
    match output_dir {
        Some(dir) => path_join(dir, stem_with_ext(stem, ext)),
        None => path_with_extension(src, ext),
    }
}

/// Every source has a file stem.
pub open spec fn all_have_stems(files: Seq<Seq<char>>) -> bool {
    forall|i: int| 0 <= i < files.len() ==> (#[trigger] path_file_stem(files[i])) is Some
}

/// The view of an optional `&str`.
pub open spec fn opt_str_view(o: Option<&str>) -> Option<Seq<char>> {
    match o {
        Some(s) => Some(s@),
        None => None,
    }
}

/// Pair each source with its output path. A source without a file stem is an
/// error that names the first such source.
pub fn compute_output_pairs(
    nc_files: &Vec<String>,
    output_dir: Option<&str>,
    output_ext: &str,
) -> (r: Result<Vec<(String, String)>, CtdError>)
    requires
        no_separator(output_ext@),
    ensures
        r is Ok <==> all_have_stems(str_views(nc_files@)),
        r matches Ok(v) ==> v.len() == nc_files.len() && forall|i: int|
            0 <= i < v.len() ==> {
                &&& (#[trigger] v@[i]).0@ == nc_files@[i]@
                &&& v@[i].1@ == output_path(
                    nc_files@[i]@,
                    path_file_stem(nc_files@[i]@)->0,
                    opt_str_view(output_dir),
                    output_ext@,
                )
            },
        r matches Err(e) ==> exists|k: int|
            0 <= k < nc_files.len() && path_file_stem(#[trigger] nc_files@[k]@) is None && (e matches CtdError::NoFileStem {
                path,
            } && path@ == nc_files@[k]@) && forall|j: int|
                0 <= j < k ==> (#[trigger] path_file_stem(nc_files@[j]@)) is Some,
{
    let mut out: Vec<(String, String)> = Vec::new();
    let mut i: usize = 0;
    while i < nc_files.len()
        invariant
            i <= nc_files.len(),
            no_separator(output_ext@),
            out.len() == i,
            forall|j: int| 0 <= j < i ==> (#[trigger] path_file_stem(nc_files@[j]@)) is Some,
            forall|j: int|
                0 <= j < i ==> {
                    &&& (#[trigger] out@[j]).0@ == nc_files@[j]@
                    &&& out@[j].1@ == output_path(
                        nc_files@[j]@,
                        path_file_stem(nc_files@[j]@)->0,
                        opt_str_view(output_dir),
                        output_ext@,
                    )
                },
        decreases nc_files.len() - i,
    {
        let src = &nc_files[i];
        let stem = match file_stem(src.as_str()) {
            Some(s) => s,
            None => {
                proof {
                    assert(path_file_stem(nc_files@[i as int]@) is None);
                    assert(str_views(nc_files@)[i as int] == nc_files@[i as int]@);
                }
                return Err(CtdError::NoFileStem { path: src.clone() });
            },
        };
        let dest = match output_dir {
            Some(dir) => {
                let ghost sv = stem@;
                let mut name = stem;
                if output_ext.unicode_len() > 0 {
                    push_char(&mut name, '.');
                    push_str(&mut name, output_ext);
                }
                proof {
                    assert(path_file_stem(nc_files@[i as int]@) == Some(sv));
                    assert(name@ =~= stem_with_ext(sv, output_ext@));
                }
                join_path(dir, name.as_str())
            },
            None => with_extension(src.as_str(), output_ext),
        };
        out.push((src.clone(), dest));
        i += 1;
    }
    proof {
        assert forall|j: int| 0 <= j < str_views(nc_files@).len() implies (#[trigger] path_file_stem(
            str_views(nc_files@)[j],
        )) is Some by {
            assert(str_views(nc_files@)[j] == nc_files@[j]@);
        }
    }
    Ok(out)
}

/// The views of source and output path pairs.
pub open spec fn path_pair_views(v: Seq<(String, String)>) -> Seq<(Seq<char>, Seq<char>)> {
    v.map_values(|p: (String, String)| (p.0@, p.1@))
}

/// The latest index below `upto` whose output path equals that of `j`.
pub open spec fn earlier_clash(pairs: Seq<(Seq<char>, Seq<char>)>, j: int, upto: int) -> Option<int>
    decreases upto,
{
    if upto <= 0 {
        None
    } else if paths_equal(pairs[upto - 1].1, pairs[j].1) {
        Some(upto - 1)
    } else {
        earlier_clash(pairs, j, upto - 1)
    }
}

/// The clashes among the first `n` pairs, in order: for each pair whose output
/// path an earlier pair already has, the latest such earlier source, the
/// source itself, and the output path.
pub open spec fn clashes(pairs: Seq<(Seq<char>, Seq<char>)>, n: int) -> Seq<(Seq<char>, Seq<char>, Seq<char>)>
    decreases n,
{
    if n <= 0 {
        Seq::empty()
    } else {
        let prev = clashes(pairs, n - 1);
        match earlier_clash(pairs, n - 1, n - 1) {
            Some(i) => prev.push((pairs[i].0, pairs[n - 1].0, pairs[n - 1].1)),
            None => prev,
        }
    }
}

/// No earlier index below `upto` has the output path of `j` exactly when
/// `earlier_clash` finds none.
proof fn lemma_earlier_clash_none(pairs: Seq<(Seq<char>, Seq<char>)>, j: int, upto: int)
    ensures
        earlier_clash(pairs, j, upto) is None <==> forall|i: int|
            0 <= i < upto ==> !paths_equal(#[trigger] pairs[i].1, pairs[j].1),
    decreases upto,
{
    if upto > 0 {
        lemma_earlier_clash_none(pairs, j, upto - 1);
    }
}

/// A batch plan is refused for clashing outputs exactly when two of its
/// sources, the earlier at `i` and the later at `j`, have output paths that
/// name the same file.
pub proof fn lemma_no_clash_iff_distinct_outputs(pairs: Seq<(Seq<char>, Seq<char>)>, n: int)
    requires
        0 <= n <= pairs.len(),
    ensures
        clashes(pairs, n).len() == 0 <==> forall|i: int, j: int|
            0 <= i < j < n ==> !paths_equal(#[trigger] pairs[i].1, #[trigger] pairs[j].1),
    decreases n,
{
    if n > 0 {
        lemma_no_clash_iff_distinct_outputs(pairs, n - 1);
        lemma_earlier_clash_none(pairs, n - 1, n - 1);
    }
}

/// The views of a list of clashes.
pub open spec fn clash_views(v: Seq<(String, String, String)>) -> Seq<(Seq<char>, Seq<char>, Seq<char>)> {
    v.map_values(|c: (String, String, String)| (c.0@, c.1@, c.2@))
}

/// The latest index below `j` whose output path equals that of `j`.
fn find_earlier_clash(pairs: &Vec<(String, String)>, j: usize) -> (r: Option<usize>)
    requires
        j < pairs.len(),
    ensures
        match r {
            Some(i) => i < j && earlier_clash(path_pair_views(pairs@), j as int, j as int) == Some(i as int),
            None => earlier_clash(path_pair_views(pairs@), j as int, j as int) is None,
        },
{
    let ghost pv = path_pair_views(pairs@);
    let mut upto: usize = j;
    while upto > 0
        invariant
            upto <= j < pairs.len(),
            pv == path_pair_views(pairs@),
            earlier_clash(pv, j as int, j as int) == earlier_clash(pv, j as int, upto as int),
        decreases upto,
    {
        proof {
            assert(pv[upto - 1] == (pairs@[upto - 1].0@, pairs@[upto - 1].1@));
            assert(pv[j as int] == (pairs@[j as int].0@, pairs@[j as int].1@));
        }
        if same_path(pairs[upto - 1].1.as_str(), pairs[j].1.as_str()) {
            return Some(upto - 1);
        }
        upto -= 1;
    }
    None
}

/// Error when two sources would produce the same output path, naming every
/// clash; otherwise nothing.
pub fn check_duplicates(pairs: &Vec<(String, String)>) -> (r: Result<(), CtdError>)
    ensures
        r is Ok <==> clashes(path_pair_views(pairs@), pairs.len() as int).len() == 0,
        r matches Err(e) ==> (e matches CtdError::DuplicateOutputs { clashes: c } && clash_views(
            c@,
        ) == clashes(path_pair_views(pairs@), pairs.len() as int)),
{
    let ghost pv = path_pair_views(pairs@);
    let mut found: Vec<(String, String, String)> = Vec::new();
    let mut j: usize = 0;
    while j < pairs.len()
        invariant
            j <= pairs.len(),
            pv == path_pair_views(pairs@),
            clash_views(found@) == clashes(pv, j as int),
        decreases pairs.len() - j,
    {
        match find_earlier_clash(pairs, j) {
            Some(i) => {
                let c = (pairs[i].0.clone(), pairs[j].0.clone(), pairs[j].1.clone());
                found.push(c);
                proof {
                    assert(pv[i as int] == (pairs@[i as int].0@, pairs@[i as int].1@));
                    assert(pv[j as int] == (pairs@[j as int].0@, pairs@[j as int].1@));
                    assert(clash_views(found@) =~= clash_views(found@.drop_last()).push(
                        (c.0@, c.1@, c.2@),
                    ));
                }
            },
            None => {},
        }
        j += 1;
    }
    if found.len() == 0 {
        Ok(())
    } else {
        Err(CtdError::DuplicateOutputs { clashes: found })
    }
}

/// The planned pairs of a batch: each selected source with its output path.
pub open spec fn planned_pairs(sel: Seq<Seq<char>>, output_dir: Option<Seq<char>>, ext: Seq<char>) -> Seq<
    (Seq<char>, Seq<char>),
> {
    Seq::new(
        sel.len(),
        |i: int| (sel[i], output_path(sel[i], path_file_stem(sel[i])->0, output_dir, ext)),
    )
}

/// The work of a batch run over the regular files found under `src_dir`:
/// the sources whose file name matches `pattern`, paired with their outputs.
/// A pattern that is no glob, a selection that is empty, a selected source
/// without a file stem (the first one is named), or two sources with the same
/// output path (every clash is listed) are refused, in that order.
pub fn plan_batch(
    files: &Vec<String>,
    src_dir: &str,
    pattern: &str,
    output_dir: Option<&str>,
    output_ext: &str,
) -> (r: Result<Vec<(String, String)>, CtdError>)
    requires
        no_separator(output_ext@),
    ensures
        ({
            let sel = select_matching(str_views(files@), pattern@);
            let planned = planned_pairs(sel, opt_str_view(output_dir), output_ext@);
            &&& r is Ok <==> glob_pattern_valid(pattern@) && sel.len() > 0 && all_have_stems(sel)
                && clashes(planned, sel.len() as int).len() == 0
            &&& r matches Ok(v) ==> path_pair_views(v@) == planned
            &&& !glob_pattern_valid(pattern@) ==> (r matches Err(CtdError::InvalidPattern { pattern: p, .. })
                && p@ == pattern@)
            &&& glob_pattern_valid(pattern@) && sel.len() == 0 ==> (r matches Err(
                CtdError::NoSourceFiles { pattern: p, dir },
            ) && p@ == pattern@ && dir@ == src_dir@)
            &&& glob_pattern_valid(pattern@) && sel.len() > 0 && !all_have_stems(sel) ==> (r matches Err(
                CtdError::NoFileStem { path },
            ) && exists|k: int|
                0 <= k < sel.len() && path_file_stem(#[trigger] sel[k]) is None && path@ == sel[k]
                    && forall|j: int| 0 <= j < k ==> (#[trigger] path_file_stem(sel[j])) is Some)
            &&& glob_pattern_valid(pattern@) && sel.len() > 0 && all_have_stems(sel) && clashes(
                planned,
                sel.len() as int,
            ).len() > 0 ==> (r matches Err(CtdError::DuplicateOutputs { clashes: c }) && clash_views(c@)
                == clashes(planned, sel.len() as int))
        }),
{
    let ghost sel = select_matching(str_views(files@), pattern@);
    let selected = match collect_nc_files(files, pattern) {
        Ok(v) => v,
        Err(e) => return Err(e),
    };
    proof {
        assert(str_views(selected@).len() == selected@.len());
    }
    if selected.len() == 0 {
        return Err(CtdError::NoSourceFiles { pattern: pattern.to_owned(), dir: src_dir.to_owned() });
    }
    let pairs = match compute_output_pairs(&selected, output_dir, output_ext) {
        Ok(p) => p,
        Err(e) => {
            proof {
                let k = choose|k: int|
                    0 <= k < selected.len() && path_file_stem(#[trigger] selected@[k]@) is None && (e matches CtdError::NoFileStem {
                        path,
                    } && path@ == selected@[k]@) && forall|j: int|
                        0 <= j < k ==> (#[trigger] path_file_stem(selected@[j]@)) is Some;
                assert(sel[k] == selected@[k]@);
                assert forall|j: int| 0 <= j < k implies (#[trigger] path_file_stem(sel[j])) is Some by {
                    assert(sel[j] == selected@[j]@);
                }
                assert(!all_have_stems(sel));
            }
            return Err(e);
        },
    };
    proof {
        let planned = planned_pairs(sel, opt_str_view(output_dir), output_ext@);
        assert forall|i: int| 0 <= i < sel.len() implies (#[trigger] path_file_stem(sel[i])) is Some by {
            assert(sel[i] == selected@[i]@);
        }
        assert forall|i: int| 0 <= i < pairs.len() implies #[trigger] path_pair_views(pairs@)[i] == planned[i] by {
            assert(sel[i] == selected@[i]@);
        }
        assert(path_pair_views(pairs@) =~= planned);
    }
    match check_duplicates(&pairs) {
        Ok(()) => Ok(pairs),
        Err(e) => Err(e),
    }
}

/// The outcome of a batch once every file was processed: the number of
/// files, or an error listing each failed source with its message.
pub fn batch_outcome(n_files: usize, failures: Vec<(String, String)>) -> (r: Result<usize, CtdError>)
    ensures
        failures.len() == 0 ==> r == Ok::<usize, CtdError>(n_files),
        failures.len() > 0 ==> r == Err::<usize, CtdError>(CtdError::BatchFailures { failures }),
{
    if failures.len() == 0 {
        Ok(n_files)
    } else {
        Err(CtdError::BatchFailures { failures })
    }
}

} // verus!
