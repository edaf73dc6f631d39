use crate::displayer::{render_spec, Displayer};
use crate::filepath::{FileMeta, FilePath};
use crate::filter::{hidden_matches, is_hidden_name, type_matches, Filter, FileType, HiddenType};
use crate::sorter::{file_name_of, new_filepath_spec, sort_spec, SortBy, Sorter};
use crate::table::views_of;
use crate::{has_glob_char, trim_folder, trim_folder_spec};
use vstd::prelude::*;

verus! {

// ---------------------------------------------------------------------------
// Error classes and the composite exit status.
//
// Each argument yields at most one error class; the classes seen across all
// arguments merge monotonically into one exit code.
// ---------------------------------------------------------------------------

/// The class of one argument's failure: a system error (a filesystem call
/// that failed) or a user error (an argument that names nothing).
#[derive(PartialEq, Eq, Structural, Clone, Copy, Debug)]
pub enum ErrClass {
    System,
    User,
}

/// Which error classes have been observed so far.
#[derive(PartialEq, Eq, Structural, Clone, Copy, Debug)]
pub struct ExitStatus {
    pub saw_system: bool,
    pub saw_user: bool,
}

/// The status after observing one more argument's outcome.
pub open spec fn merge_spec(st: ExitStatus, c: Option<ErrClass>) -> ExitStatus {
    match c {
        Option::None => st,
        Option::Some(ErrClass::System) => ExitStatus { saw_system: true, saw_user: st.saw_user },
        Option::Some(ErrClass::User) => ExitStatus { saw_system: st.saw_system, saw_user: true },
    }
}

/// The exit code a status stands for.
pub open spec fn code_spec(st: ExitStatus) -> int {
    if st.saw_system && st.saw_user {
        3
    } else if st.saw_user {
        2
    } else if st.saw_system {
        1
    } else {
        0
    }
}

/// The status after observing every argument's outcome, in order.
pub open spec fn fold_spec(s: Seq<Option<ErrClass>>) -> ExitStatus
    decreases s.len(),
{
    if s.len() == 0 {
        ExitStatus { saw_system: false, saw_user: false }
    } else {
        merge_spec(fold_spec(s.drop_last()), s.last())
    }
}

/// Whether some argument produced the given class.
pub open spec fn has_class(s: Seq<Option<ErrClass>>, cl: ErrClass) -> bool {
    exists|i: int| 0 <= i < s.len() && s[i] == Option::Some(cl)
}

impl ExitStatus {
    /// The status before any argument has been processed.
    pub fn new() -> (r: Self)
        ensures
            r == fold_spec(Seq::<Option<ErrClass>>::empty()),
    {
        ExitStatus { saw_system: false, saw_user: false }
    }

    /// Merges one argument's outcome into the status.
    pub fn merge(&mut self, c: &Option<ErrClass>)
        ensures
            *final(self) == merge_spec(*old(self), *c),
    {
        match c {
            Option::None => {},
            Option::Some(ErrClass::System) => {
                self.saw_system = true;
            },
            Option::Some(ErrClass::User) => {
                self.saw_user = true;
            },
        }
    }

    /// The process exit code this status stands for.
    pub fn code(&self) -> (r: i32)
        ensures
            r as int == code_spec(*self),
    {
        if self.saw_system && self.saw_user {
            3
        } else if self.saw_user {
            2
        } else if self.saw_system {
            1
        } else {
            0
        }
    }
}

/// Law: the composite exit code is 0 iff no argument produced an error, 3
/// iff at least one argument produced each class, and otherwise the single
/// class that occurred; the order of the arguments never matters, since the
/// code depends only on which classes occur.
pub proof fn lemma_exit_code(s: Seq<Option<ErrClass>>)
    ensures
        fold_spec(s).saw_system == has_class(s, ErrClass::System),
        fold_spec(s).saw_user == has_class(s, ErrClass::User),
        code_spec(fold_spec(s)) == 0 <==> !has_class(s, ErrClass::System) && !has_class(
            s,
            ErrClass::User,
        ),
        code_spec(fold_spec(s)) == 3 <==> has_class(s, ErrClass::System) && has_class(
            s,
            ErrClass::User,
        ),
        code_spec(fold_spec(s)) == 1 <==> has_class(s, ErrClass::System) && !has_class(
            s,
            ErrClass::User,
        ),
        code_spec(fold_spec(s)) == 2 <==> !has_class(s, ErrClass::System) && has_class(
            s,
            ErrClass::User,
        ),
    decreases s.len(),
{
    if s.len() > 0 {
        lemma_exit_code(s.drop_last());
        let dl = s.drop_last();
        assert forall|cl: ErrClass| has_class(dl, cl) implies has_class(s, cl) by {
            let i = choose|i: int| 0 <= i < dl.len() && dl[i] == Option::Some(cl);
            assert(s[i] == Option::Some(cl));
        }
        assert forall|cl: ErrClass| has_class(s, cl) implies (has_class(dl, cl) || s.last()
            == Option::Some(cl)) by {
            let i = choose|i: int| 0 <= i < s.len() && s[i] == Option::Some(cl);
            if i < s.len() - 1 {
                assert(dl[i] == Option::Some(cl));
            }
        }
    }
}

// ---------------------------------------------------------------------------
// Classifying an argument.
// ---------------------------------------------------------------------------

/// What querying an argument as a path reported.
#[derive(PartialEq, Eq, Structural, Clone, Copy, Debug)]
pub enum StatOutcome {
    /// The path exists and is a regular file.
    IsFile,
    /// The path exists and is a directory.
    IsDir,
    /// The path does not exist.
    NotFound,
    /// The query was refused.
    PermissionDenied,
    /// The query failed some other way.
    OtherError,
}

/// What is to be done with one argument.
#[derive(PartialEq, Eq, Structural, Clone, Copy, Debug)]
pub enum ArgAction {
    /// Print the argument itself as a single line, with no sorting, layout
    /// or header.
    PrintLiteralFile,
    /// Enumerate the directory's immediate children.
    ListDirectory,
    /// Expand the argument as a glob pattern.
    ExpandPattern,
    /// A user error: the path names nothing and is no pattern.
    ReportNotFound,
    /// A system error: the path could not be queried.
    ReportPermissionDenied,
    /// A system error: the query failed some other way.
    ReportFailure,
}

/// How one argument is classified: an existing path is listed as a file or
/// a directory; a missing path is a pattern when it holds a glob
/// metacharacter and a user error otherwise; any other failure of the query
/// is a system error.
pub open spec fn classify_spec(arg: Seq<char>, stat: StatOutcome) -> ArgAction {
    match stat {
        StatOutcome::IsFile => ArgAction::PrintLiteralFile,
        StatOutcome::IsDir => ArgAction::ListDirectory,
        StatOutcome::NotFound => if has_glob_char(arg) {
            ArgAction::ExpandPattern
        } else {
            ArgAction::ReportNotFound
        },
        StatOutcome::PermissionDenied => ArgAction::ReportPermissionDenied,
        StatOutcome::OtherError => ArgAction::ReportFailure,
    }
}

/// Decides what to do with one argument from what the filesystem said.
pub fn classify_arg(arg: &str, stat: &StatOutcome) -> (r: ArgAction)
    ensures
        r == classify_spec(arg@, *stat),
{
    match stat {
        StatOutcome::IsFile => ArgAction::PrintLiteralFile,
        StatOutcome::IsDir => ArgAction::ListDirectory,
        StatOutcome::NotFound => if crate::is_glob(arg) {
            ArgAction::ExpandPattern
        } else {
            ArgAction::ReportNotFound
        },
        StatOutcome::PermissionDenied => ArgAction::ReportPermissionDenied,
        StatOutcome::OtherError => ArgAction::ReportFailure,
    }
}

// ---------------------------------------------------------------------------
// Per-argument failures: their diagnostics and their classes.
// ---------------------------------------------------------------------------

/// The ways one argument can fail.
#[derive(PartialEq, Eq, Structural, Clone, Copy, Debug)]
pub enum FailureKind {
    /// The argument names nothing and is no pattern.
    NotFound,
    /// A filesystem query was refused.
    PermissionDenied,
    /// A filesystem read failed some other way.
    ReadFailure,
    /// The argument is a pattern that does not parse.
    InvalidPattern,
}

/// The text appended to the argument in its diagnostic line.
pub open spec fn failure_text(k: FailureKind) -> Seq<char> {
    match k {
        FailureKind::NotFound => ": the system cannot find the file specified"@,
        FailureKind::PermissionDenied => ": permission denied"@,
        FailureKind::ReadFailure => ": read error"@,
        FailureKind::InvalidPattern => ": invalid glob pattern"@,
    }
}

/// The diagnostic line for one failed argument.
pub fn failure_message(arg: &str, k: &FailureKind) -> (r: String)
    ensures
        r@ == arg@ + failure_text(*k),
{
    let mut m = String::from_str(arg);
    match k {
        FailureKind::NotFound => m.append(": the system cannot find the file specified"),
        FailureKind::PermissionDenied => m.append(": permission denied"),
        FailureKind::ReadFailure => m.append(": read error"),
        FailureKind::InvalidPattern => m.append(": invalid glob pattern"),
    }
    m
}

/// The class of each failure: missing paths and bad patterns are the
/// user's, refused and failed reads are the system's.
pub open spec fn failure_class_spec(k: FailureKind) -> ErrClass {
    match k {
        FailureKind::NotFound => ErrClass::User,
        FailureKind::InvalidPattern => ErrClass::User,
        FailureKind::PermissionDenied => ErrClass::System,
        FailureKind::ReadFailure => ErrClass::System,
    }
}

/// The error class one failure contributes to the exit status.
pub fn failure_class(k: &FailureKind) -> (r: ErrClass)
    ensures
        r == failure_class_spec(*k),
{
    match k {
        FailureKind::NotFound => ErrClass::User,
        FailureKind::InvalidPattern => ErrClass::User,
        FailureKind::PermissionDenied => ErrClass::System,
        FailureKind::ReadFailure => ErrClass::System,
    }
}

/// The failure an action reports, if it reports one.
pub open spec fn action_failure_spec(a: ArgAction) -> Option<FailureKind> {
    match a {
        ArgAction::ReportNotFound => Option::Some(FailureKind::NotFound),
        ArgAction::ReportPermissionDenied => Option::Some(FailureKind::PermissionDenied),
        ArgAction::ReportFailure => Option::Some(FailureKind::ReadFailure),
        _ => Option::None,
    }
}

/// The failure an action reports, if it reports one.
pub fn action_failure(a: &ArgAction) -> (r: Option<FailureKind>)
    ensures
        r == action_failure_spec(*a),
{
    match a {
        ArgAction::ReportNotFound => Option::Some(FailureKind::NotFound),
        ArgAction::ReportPermissionDenied => Option::Some(FailureKind::PermissionDenied),
        ArgAction::ReportFailure => Option::Some(FailureKind::ReadFailure),
        _ => Option::None,
    }
}

// ---------------------------------------------------------------------------
// Enumerated candidates and the two-stage filter over them.
// ---------------------------------------------------------------------------

/// One enumerated candidate: its path, the name the visibility filter
/// judges, and its metadata when a metadata call was made for it.
#[derive(Clone, Debug)]
pub struct RawEntry {
    pub path: String,
    pub name: String,
    pub meta: Option<FileMeta>,
}

/// Whether a candidate survives the filters: its name must pass the
/// visibility filter where that applies, and, where metadata was needed,
/// the metadata must have been fetched and must pass the type filter.
pub open spec fn entry_kept(e: RawEntry, filter: Filter, apply_hidden: bool, should: bool) -> bool {
    &&& (apply_hidden ==> hidden_matches(filter.hidden, e.name@))
    &&& (should ==> match e.meta {
        Option::Some(m) => type_matches(filter.file_type, m),
        Option::None => false,
    })
}

/// The entry built for a surviving candidate.
pub open spec fn entry_value(e: RawEntry, sort_by: SortBy, should: bool) -> FilePath {
    match e.meta {
        Option::Some(m) if should => new_filepath_spec(sort_by, e.path, m),
        _ => FilePath {
            path: e.path,
            size: 0,
            date_created: Option::None,
            last_modified: Option::None,
            last_accessed: Option::None,
        },
    }
}

/// The batch built from the candidates, in enumeration order.
pub open spec fn build_spec(
    raw: Seq<RawEntry>,
    filter: Filter,
    apply_hidden: bool,
    sort_by: SortBy,
    should: bool,
) -> Seq<FilePath>
    decreases raw.len(),
{
    if raw.len() == 0 {
        Seq::empty()
    } else {
        let rest = build_spec(raw.drop_last(), filter, apply_hidden, sort_by, should);
        if entry_kept(raw.last(), filter, apply_hidden, should) {
            rest.push(entry_value(raw.last(), sort_by, should))
        } else {
            rest
        }
    }
}

/// Law: building a batch under the visible-only filter keeps no entry with
/// a hidden name, under the hidden-only filter only such entries, and with
/// the unrestricted filter the visibility test removes nothing.
pub proof fn lemma_build_visibility(
    raw: Seq<RawEntry>,
    filter: Filter,
    sort_by: SortBy,
    should: bool,
)
    requires
        forall|i: int|
            0 <= i < raw.len() ==> (#[trigger] raw[i]).name@ == file_name_of(raw[i].path@),
    ensures
        filter.hidden is NotHidden ==> forall|i: int|
            0 <= i < build_spec(raw, filter, true, sort_by, should).len() ==> !is_hidden_name(
                file_name_of(
                    #[trigger] build_spec(raw, filter, true, sort_by, should)[i].path@,
                ),
            ),
        filter.hidden is Hidden ==> forall|i: int|
            0 <= i < build_spec(raw, filter, true, sort_by, should).len() ==> is_hidden_name(
                file_name_of(
                    #[trigger] build_spec(raw, filter, true, sort_by, should)[i].path@,
                ),
            ),
        filter.hidden is Any ==> build_spec(raw, filter, true, sort_by, should) == build_spec(
            raw,
            filter,
            false,
            sort_by,
            should,
        ),
    decreases raw.len(),
{
    if raw.len() > 0 {
        lemma_build_visibility(raw.drop_last(), filter, sort_by, should);
        let e = raw.last();
        assert(raw[raw.len() - 1] == e);
        assert(e.name@ == file_name_of(e.path@));
        assert(entry_value(e, sort_by, should).path == e.path);
    }
}

// ---------------------------------------------------------------------------
// The command: one invocation's arguments and configuration.
// ---------------------------------------------------------------------------

/// One invocation: the arguments to process and the configuration that
/// selection, ordering and display run under.
pub struct Cmd {
    pub args: Vec<String>,
    pub filter: Filter,
    pub sorter: Sorter,
    pub displayer: Displayer,
}

/// Whether filtering or sorting needs metadata: only the type filter and
/// the size and timestamp keys do, so only then is a metadata call made.
pub open spec fn should_md_spec(filter: Filter, sort_by: SortBy) -> bool {
    !(filter.file_type is Any) || !(sort_by is NoSort || sort_by is Name)
}

/// The header line written above a batch when several arguments were given.
pub open spec fn header_spec(arg: Seq<char>) -> Seq<char> {
    seq!['#', ' '] + arg + seq![':']
}

/// The display names of a sorted batch: the paths, with the parent folder
/// trimmed off when the argument was a directory.
pub open spec fn batch_names_spec(
    sorted: Seq<FilePath>,
    arg: Seq<char>,
    arg_is_dir: bool,
) -> Seq<Seq<char>> {
    sorted.map_values(
        |f: FilePath|
            if arg_is_dir {
                trim_folder_spec(arg, f.path@)
            } else {
                f.path@
            },
    )
}

/// The lines one directory or pattern batch prints: the batch sorted, its
/// paths trimmed and laid out, under a header when there are several
/// arguments.
pub open spec fn render_batch_spec(
    cmd: Cmd,
    arg: Seq<char>,
    files: Seq<FilePath>,
    arg_is_dir: bool,
) -> Seq<Seq<char>> {
    let sorted = sort_spec(cmd.sorter.sort_by, cmd.sorter.descending, files);
    let lines = render_spec(cmd.displayer, batch_names_spec(sorted, arg, arg_is_dir));
    if cmd.args@.len() > 1 {
        seq![header_spec(arg)] + lines
    } else {
        lines
    }
}

impl Cmd {
    /// Whether a metadata call is to be made for each candidate.
    pub fn should_md(&self) -> (r: bool)
        ensures
            r == should_md_spec(self.filter, self.sorter.sort_by),
    {
        !matches!(self.filter.file_type, FileType::Any) || !matches!(
            self.sorter.sort_by,
            SortBy::NoSort | SortBy::Name,
        )
    }

    /// Whether pattern matches whose file name is hidden are excluded from
    /// the results: exactly when only visible entries are wanted.
    pub fn excludes_hidden_matches(&self) -> (r: bool)
        ensures
            r == (self.filter.hidden is NotHidden),
    {
        matches!(self.filter.hidden, HiddenType::NotHidden)
    }

    /// Applies the visibility and type filters to the enumerated
    /// candidates, in order, and builds the batch entries.
    pub fn build_entries(&self, raw: Vec<RawEntry>, apply_hidden: bool) -> (r: Vec<FilePath>)
        ensures
            r@ == build_spec(
                raw@,
                self.filter,
                apply_hidden,
                self.sorter.sort_by,
                should_md_spec(self.filter, self.sorter.sort_by),
            ),
    {
        let should = self.should_md();
        let mut raw = raw;
        let ghost orig = raw@;
        let mut out: Vec<FilePath> = Vec::new();
        proof {
            assert(orig.take(0) =~= Seq::<RawEntry>::empty());
            assert(orig.skip(0) =~= orig);
        }
        while raw.len() > 0
            invariant
                raw@ == orig.skip(orig.len() - raw@.len()),
                raw@.len() <= orig.len(),
                should == should_md_spec(self.filter, self.sorter.sort_by),
                out@ == build_spec(
                    orig.take(orig.len() - raw@.len()),
                    self.filter,
                    apply_hidden,
                    self.sorter.sort_by,
                    should,
                ),
            decreases raw@.len(),
        {
            let ghost c = orig.len() - raw@.len();
            let e = raw.remove(0);
            proof {
                assert(e == orig.skip(c)[0]);
                assert(orig.skip(c)[0] == orig[c]);
                assert(raw@ =~= orig.skip(c + 1));
                assert(orig.take(c + 1).drop_last() =~= orig.take(c));
                assert(orig.take(c + 1).last() == orig[c]);
            }
            let keep_name = if apply_hidden {
                self.filter.hidden.is_match(e.name.as_str())
            } else {
                true
            };
            if keep_name {
                if should {
                    match e.meta {
                        Option::Some(m) => {
                            if self.filter.file_type.is_match(&m) {
                                let fp = self.sorter.sort_by.new_filepath(e.path, &m);
                                out.push(fp);
                            }
                        },
                        Option::None => {},
                    }
                } else {
                    let fp = FilePath::new(e.path);
                    out.push(fp);
                }
            }
        }
        proof {
            assert(orig.take(orig.len() as int) =~= orig);
        }
        out
    }

    /// The lines one directory or pattern batch prints: the batch is
    /// sorted, its paths trimmed of the folder prefix when the argument was
    /// a directory, formatted and laid out, and a header line naming the
    /// argument is put on top when several arguments were given.
    pub fn render_batch(&self, arg: &str, files: Vec<FilePath>, arg_is_dir: bool) -> (r: Vec<
        String,
    >)
        ensures
            views_of(r@) == render_batch_spec(*self, arg@, files@, arg_is_dir),
    {
        let ghost orig = files@;
        let mut files = files;
        self.sorter.sort(&mut files);
        let ghost sorted = files@;
        let mut names: Vec<String> = Vec::new();
        proof {
            assert(sorted.take(0) =~= Seq::<FilePath>::empty());
            assert(sorted.skip(0) =~= sorted);
        }
        while files.len() > 0
            invariant
                files@ == sorted.skip(sorted.len() - files@.len()),
                files@.len() <= sorted.len(),
                names@.len() == sorted.len() - files@.len(),
                forall|j: int|
                    0 <= j < names@.len() ==> (#[trigger] names@[j])@ == (if arg_is_dir {
                        trim_folder_spec(arg@, sorted[j].path@)
                    } else {
                        sorted[j].path@
                    }),
            decreases files@.len(),
        {
            let ghost c = sorted.len() - files@.len();
            let fp = files.remove(0);
            proof {
                assert(fp == sorted.skip(c)[0]);
                assert(sorted.skip(c)[0] == sorted[c]);
                assert(files@ =~= sorted.skip(c + 1));
            }
            if arg_is_dir {
                names.push(trim_folder(arg, fp.path.as_str()));
            } else {
                names.push(fp.path);
            }
        }
        proof {
            assert(views_of(names@) =~= batch_names_spec(sorted, arg@, arg_is_dir));
        }
        let lines = self.displayer.render(names);
        if self.args.len() > 1 {
            let mut h = String::from_str("# ");
            h.append(arg);
            h.append(":");
            proof {
                reveal_strlit("# ");
                reveal_strlit(":");
                assert("# "@ =~= seq!['#', ' ']);
                assert(":"@ =~= seq![':']);
                assert(h@ =~= header_spec(arg@));
            }
            let mut out: Vec<String> = Vec::new();
            out.push(h);
            let mut lines = lines;
            let ghost lv = views_of(lines@);
            proof {
                assert(lv.skip(0) =~= lv);
            }
            while lines.len() > 0
                invariant
                    views_of(lines@) == lv.skip(lv.len() - lines@.len()),
                    lines@.len() <= lv.len(),
                    out@.len() == 1 + lv.len() - lines@.len(),
                    out@[0]@ == header_spec(arg@),
                    forall|j: int|
                        1 <= j < out@.len() ==> (#[trigger] out@[j])@ == lv[j - 1],
                decreases lines@.len(),
            {
                let ghost c = lv.len() - lines@.len();
                let ghost lines0 = lines@;
                let l = lines.remove(0);
                proof {
                    assert(views_of(lines0)[0] == lines0[0]@);
                    assert(l@ == lv[c]);
                    assert forall|j: int|
                        0 <= j < lines@.len() implies views_of(lines@)[j] == lv.skip(c + 1)[j] by {
                        assert(lines@[j] == lines0.remove(0)[j]);
                        assert(lines0.remove(0)[j] == lines0[j + 1]);
                        assert(views_of(lines0)[j + 1] == lines0[j + 1]@);
                    }
                    assert(views_of(lines@) =~= lv.skip(c + 1));
                }
                out.push(l);
            }
            proof {
                assert(views_of(out@) =~= seq![header_spec(arg@)] + lv);
            }
            out
        } else {
            lines
        }
    }
}

// ---------------------------------------------------------------------------
// Glob expansion.
// ---------------------------------------------------------------------------

/// Names whether glob's pattern parser accepts a pattern: a pure function
/// of the pattern text.
pub uninterp spec fn glob_pattern_ok(pattern: Seq<char>) -> bool;

/// Relies on glob::glob_with of glob 0.3.4: it returns Err exactly when the
/// pattern fails to parse, which depends on the pattern text alone and not
/// on the match options; the matched paths are read from the filesystem, so
/// nothing is promised of them.  Matching is case-insensitive with literal
/// separators; the leading-dot option stays off, which keeps the traversal
/// away from its one panicking line (an unwrap on non-UTF-8 child names in
/// its dot filter), so the call returns on every input; hidden matches are
/// therefore returned here and excluded by the verified caller.  The flag
/// reports whether some match could not be read.
#[verifier::external_body]
fn glob_paths(pattern: &str) -> (r: Result<(Vec<String>, bool), ()>)
    ensures
        r is Ok <==> glob_pattern_ok(pattern@),
{
    let o = glob::MatchOptions {
        case_sensitive: false,
        require_literal_separator: true,
        require_literal_leading_dot: false,
    };
    let paths = glob::glob_with(pattern, o).map_err(|_| ())?;
    let (mut out, mut failed) = (Vec::new(), false);
    for m in paths {
        match m {
            Ok(p) => out.extend(p.into_os_string().into_string().ok()),
            Err(_) => failed = true,
        }
    }
    Ok((out, failed))
}

/// Whether a matched path stays in the results: under the visible-only
/// filter a match whose file name is hidden goes, otherwise everything
/// stays.
pub open spec fn keep_match(hidden: HiddenType, p: Seq<char>) -> bool {
    !(hidden is NotHidden) || !is_hidden_name(file_name_of(p))
}

/// The matched paths that survive the visibility rule, in order.
pub open spec fn visible_matches_spec(paths: Seq<String>, hidden: HiddenType) -> Seq<String>
    decreases paths.len(),
{
    if paths.len() == 0 {
        Seq::empty()
    } else {
        let rest = visible_matches_spec(paths.drop_last(), hidden);
        if keep_match(hidden, paths.last()@) {
            rest.push(paths.last())
        } else {
            rest
        }
    }
}

/// Every surviving match satisfies the visibility rule.
proof fn lemma_visible_matches_kept(paths: Seq<String>, hidden: HiddenType)
    ensures
        forall|i: int|
            0 <= i < visible_matches_spec(paths, hidden).len() ==> keep_match(
                hidden,
                #[trigger] visible_matches_spec(paths, hidden)[i]@,
            ),
    decreases paths.len(),
{
    if paths.len() > 0 {
        lemma_visible_matches_kept(paths.drop_last(), hidden);
        let rest = visible_matches_spec(paths.drop_last(), hidden);
        let whole = visible_matches_spec(paths, hidden);
        if keep_match(hidden, paths.last()@) {
            assert forall|i: int| 0 <= i < whole.len() implies keep_match(
                hidden,
                #[trigger] whole[i]@,
            ) by {
                if i < rest.len() {
                    assert(whole[i] == rest[i]);
                } else {
                    assert(whole[i] == paths.last());
                }
            }
        }
    }
}

/// Reports whether the file name of `p` is hidden.
fn hidden_file_name(p: &str) -> (r: bool)
    ensures
        r == is_hidden_name(file_name_of(p@)),
{
    let k = crate::sorter::name_start(p);
    let len = p.unicode_len();
    if k == len {
        proof {
            assert(file_name_of(p@).len() == 0);
        }
        false
    } else {
        proof {
            assert(file_name_of(p@)[0] == p@.skip(k as int)[0]);
            assert(p@.skip(k as int)[0] == p@[k as int]);
        }
        p.get_char(k) == '.'
    }
}

impl Cmd {
    /// Applies the visibility rule to a list of matched paths: under the
    /// visible-only filter, matches whose file name is hidden are dropped;
    /// under the other filters every match stays.
    pub fn visible_matches(&self, paths: Vec<String>) -> (r: Vec<String>)
        ensures
            r@ == visible_matches_spec(paths@, self.filter.hidden),
    {
        if !self.excludes_hidden_matches() {
            proof {
                lemma_visible_matches_all_kept(paths@, self.filter.hidden);
            }
            return paths;
        }
        let mut paths = paths;
        let ghost orig = paths@;
        let mut out: Vec<String> = Vec::new();
        proof {
            assert(orig.take(0) =~= Seq::<String>::empty());
            assert(orig.skip(0) =~= orig);
        }
        while paths.len() > 0
            invariant
                self.filter.hidden is NotHidden,
                paths@ == orig.skip(orig.len() - paths@.len()),
                paths@.len() <= orig.len(),
                out@ == visible_matches_spec(
                    orig.take(orig.len() - paths@.len()),
                    self.filter.hidden,
                ),
            decreases paths@.len(),
        {
            let ghost c = orig.len() - paths@.len();
            let p = paths.remove(0);
            proof {
                assert(p == orig.skip(c)[0]);
                assert(orig.skip(c)[0] == orig[c]);
                assert(paths@ =~= orig.skip(c + 1));
                assert(orig.take(c + 1).drop_last() =~= orig.take(c));
                assert(orig.take(c + 1).last() == orig[c]);
            }
            if !hidden_file_name(p.as_str()) {
                out.push(p);
            }
        }
        proof {
            assert(orig.take(orig.len() as int) =~= orig);
        }
        out
    }

    /// Expands one glob-pattern argument, matching case-insensitively and
    /// with literal separators, then applies the visibility rule: when only
    /// visible entries are wanted, no match with a hidden file name is
    /// returned — not even for a pattern that spells the leading dot out,
    /// while a wildcard earlier in the pattern may still descend into a
    /// hidden directory.  The result is Ok iff the pattern is well-formed;
    /// zero matches are not an error.  The matched paths come from the
    /// filesystem; the flag reports whether some match could not be read.
    pub fn expand_pattern(&self, pattern: &str) -> (r: Result<(Vec<String>, bool), ()>)
        ensures
            r is Ok <==> glob_pattern_ok(pattern@),
            r matches Ok(v) ==> forall|i: int|
                0 <= i < v.0@.len() ==> keep_match(self.filter.hidden, #[trigger] v.0@[i]@),
    {
        match glob_paths(pattern) {
            Err(e) => Err(e),
            Ok((paths, failed)) => {
                let ghost raw = paths@;
                let kept = self.visible_matches(paths);
                proof {
                    lemma_visible_matches_kept(raw, self.filter.hidden);
                }
                Ok((kept, failed))
            },
        }
    }
}

/// With the visibility rule off, every match stays.
proof fn lemma_visible_matches_all_kept(paths: Seq<String>, hidden: HiddenType)
    requires
        !(hidden is NotHidden),
    ensures
        visible_matches_spec(paths, hidden) == paths,
    decreases paths.len(),
{
    if paths.len() > 0 {
        lemma_visible_matches_all_kept(paths.drop_last(), hidden);
        assert(visible_matches_spec(paths, hidden) =~= paths);
    }
}

} // verus!
