//! The project store: a text of lines, one `name:path` record per line.
//!
//! A line that begins with `#` is a comment, and a line of nothing but
//! whitespace is blank; neither is a record. The first colon of a record
//! parts the name from the path, so a path may hold colons of its own.
//! Removing a record takes out its line and what ends the line; every other
//! character of the store, line endings among them, stays as it is. The
//! functions here take the store's text and say what to show the user and
//! what to write back; reading and writing the file is left to the caller.

use vstd::prelude::*;
use vstd::slice::*;
use vstd::string::*;
use crate::paths::{base_name, file_name};
use crate::text::{
    bounds_lines, chars_of, find, find_char, lemma_find, lemma_lines_of_pieces, line_bounds,
    line_of, lines_of, pieces_of, starts_with, trim_bounds, trimmed,
};

verus! {

/// The comment that opens a new store.
pub const STORE_HEADER: &'static str = "# File to store your projects for PS";

/// A line that begins with `#` is a comment.
pub open spec fn is_comment(line: Seq<char>) -> bool {
    line.len() > 0 && line[0] == '#'
}

/// A line of nothing but whitespace is blank.
pub open spec fn is_blank(line: Seq<char>) -> bool {
    trimmed(line).len() == 0
}

/// The text that opens a record of `name`: the name and a colon.
pub open spec fn record_prefix(name: Seq<char>) -> Seq<char> {
    name.push(':')
}

/// Whether `line` is a record of the project `name`: no comment, and it
/// begins with the name and a colon.
pub open spec fn is_record_of(line: Seq<char>, name: Seq<char>) -> bool {
    !is_comment(line) && record_prefix(name).is_prefix_of(line)
}

/// The records of `name` among `lines`, in order.
pub open spec fn records_of(lines: Seq<Seq<char>>, name: Seq<char>) -> Seq<Seq<char>> {
    lines.filter(|l: Seq<char>| is_record_of(l, name))
}

/// Whether the store `content` holds a record of `name`.
pub open spec fn has_project(content: Seq<char>, name: Seq<char>) -> bool {
    exists|i: int|
        0 <= i < lines_of(content).len() && is_record_of(#[trigger] lines_of(content)[i], name)
}

/// What stands before the first colon of `line`; the whole line where it
/// holds none.
pub open spec fn name_field(line: Seq<char>) -> Seq<char> {
    line.take(find(line, ':'))
}

/// What stands after the first colon of `line`; nothing where it holds none.
pub open spec fn path_field(line: Seq<char>) -> Seq<char> {
    if find(line, ':') < line.len() {
        line.skip(find(line, ':') + 1)
    } else {
        Seq::empty()
    }
}

/// The line that records `name` at `path`, with its line feed.
pub open spec fn record_line(name: Seq<char>, path: Seq<char>) -> Seq<char> {
    name + seq![':'] + path + seq!['\n']
}

/// Whether a line appended to `content` starts a line of its own: `content`
/// is empty or ends with a line feed.
pub open spec fn ends_complete(content: Seq<char>) -> bool {
    content.len() == 0 || content.last() == '\n'
}

/// The store `content` after `name` has been added for `path`: unchanged
/// where it already holds a record of `name`, otherwise with the new record
/// appended.
pub open spec fn with_project(content: Seq<char>, name: Seq<char>, path: Seq<char>) -> Seq<char> {
    if has_project(content, name) {
        content
    } else {
        content + record_line(name, path)
    }
}

/// The name a new project gets: the one given, or, where none is given, the
/// file name of the directory it points to. `None` where that directory has
/// no file name either.
pub open spec fn chosen_name(given: Seq<char>, dir: Seq<char>) -> Option<Seq<char>> {
    if given.len() > 0 {
        Some(given)
    } else {
        file_name(dir)
    }
}

/// Whether `line` is shown in a listing: no comment, and not blank.
pub open spec fn is_listed(line: Seq<char>) -> bool {
    !is_comment(line) && !is_blank(line)
}

/// What a listing shows of `line`: in raw form the trimmed line; otherwise
/// the trimmed name, which is empty where the line holds no colon.
pub open spec fn shown(line: Seq<char>, raw: bool) -> Seq<char> {
    if raw {
        trimmed(line)
    } else if find(line, ':') < line.len() {
        trimmed(name_field(line))
    } else {
        Seq::empty()
    }
}

/// What a listing shows of `lines`, in their order.
pub open spec fn listing_of(lines: Seq<Seq<char>>, raw: bool) -> Seq<Seq<char>> {
    lines.filter(|l: Seq<char>| is_listed(l)).map_values(|l: Seq<char>| shown(l, raw))
}

/// The listing of the store `content`.
pub open spec fn listing(content: Seq<char>, raw: bool) -> Seq<Seq<char>> {
    listing_of(lines_of(content), raw)
}

/// The lines among `lines` that are no record of `name`, in order.
pub open spec fn kept_lines(lines: Seq<Seq<char>>, name: Seq<char>) -> Seq<Seq<char>> {
    lines.filter(|l: Seq<char>| !is_record_of(l, name))
}

/// The pieces among `pieces` whose line is no record of `name`, in order.
pub open spec fn kept_pieces(pieces: Seq<Seq<char>>, name: Seq<char>) -> Seq<Seq<char>> {
    pieces.filter(|p: Seq<char>| !is_record_of(line_of(p), name))
}

/// The store `content` without the records of `name`: each record is taken
/// out together with what ends its line, and every other character stays
/// as it is and where it is among the others.
pub open spec fn without_project(content: Seq<char>, name: Seq<char>) -> Seq<char> {
    kept_pieces(pieces_of(content), name).flatten()
}

/// The paths of the records of `name` among `lines`, in order.
pub open spec fn paths_among(lines: Seq<Seq<char>>, name: Seq<char>) -> Seq<Seq<char>> {
    records_of(lines, name).map_values(|l: Seq<char>| path_field(l))
}

/// The paths that the store `content` records for `name`, in file order.
pub open spec fn paths_of(content: Seq<char>, name: Seq<char>) -> Seq<Seq<char>> {
    paths_among(lines_of(content), name)
}

/// The first of `paths` whose flag in `present` is set. A path without a
/// flag counts as absent.
pub open spec fn first_present(paths: Seq<Seq<char>>, present: Seq<bool>) -> Option<Seq<char>>
    decreases paths.len(),
{
    if paths.len() == 0 || present.len() == 0 {
        None
    } else if present[0] {
        Some(paths[0])
    } else {
        first_present(paths.skip(1), present.skip(1))
    }
}

/// What adding a project came to.
#[derive(Debug, Clone)]
pub enum AddOutcome {
    /// The project is new; `line` is to be appended to the store.
    Added { name: String, line: String },
    /// The store already holds a record of the name; nothing is to be written.
    AlreadyExists { name: String },
}

impl AddOutcome {
    /// The text shown to the user.
    pub open spec fn message_text(self) -> Seq<char> {
        match self {
            AddOutcome::Added { name, .. } => "Added project: "@ + name@,
            AddOutcome::AlreadyExists { name } => "The project "@ + name@ + " already exists"@,
        }
    }

    /// The text shown to the user.
    pub fn message(&self) -> (m: String)
        ensures
            m@ == self.message_text(),
    {
        match self {
            AddOutcome::Added { name, .. } => {
                let mut m = "Added project: ".to_owned();
                m.append(name.as_str());
                m
            },
            AddOutcome::AlreadyExists { name } => {
                let mut m = "The project ".to_owned();
                m.append(name.as_str());
                m.append(" already exists");
                m
            },
        }
    }
}

/// What removing a project came to.
#[derive(Debug, Clone)]
pub enum RemoveOutcome {
    /// The store held the project; `content` is the store's new text.
    Removed { name: String, content: String },
    /// The store holds no record of the name and stays as it is.
    NotFound { name: String },
}

impl RemoveOutcome {
    /// The text shown to the user.
    pub open spec fn message_text(self) -> Seq<char> {
        match self {
            RemoveOutcome::Removed { name, .. } => "Removed project: "@ + name@,
            RemoveOutcome::NotFound { name } => "Project "@ + name@ + " not found"@,
        }
    }

    /// The text shown to the user.
    pub fn message(&self) -> (m: String)
        ensures
            m@ == self.message_text(),
    {
        match self {
            RemoveOutcome::Removed { name, .. } => {
                let mut m = "Removed project: ".to_owned();
                m.append(name.as_str());
                m
            },
            RemoveOutcome::NotFound { name } => not_found_message(name.as_str()),
        }
    }
}

/// What looking up a project's directory came to.
#[derive(Debug, Clone)]
pub enum DirOutcome {
    /// The project is recorded at `path`, and `path` is there.
    Found { path: String },
    /// No record of the name points to a directory that is there.
    NotFound { name: String },
}

impl DirOutcome {
    /// The text shown to the user: the path, meant for standard output, or
    /// the complaint, meant for the diagnostic stream.
    pub open spec fn message_text(self) -> Seq<char> {
        match self {
            DirOutcome::Found { path } => path@,
            DirOutcome::NotFound { name } => "Project "@ + name@ + " not found"@,
        }
    }

    /// The text shown to the user.
    pub fn message(&self) -> (m: String)
        ensures
            m@ == self.message_text(),
    {
        match self {
            DirOutcome::Found { path } => path.clone(),
            DirOutcome::NotFound { name } => not_found_message(name.as_str()),
        }
    }
}

/// The complaint that no project of that name was found.
pub fn not_found_message(name: &str) -> (m: String)
    ensures
        m@ == "Project "@ + name@ + " not found"@,
{
    let mut m = "Project ".to_owned();
    m.append(name);
    m.append(" not found");
    m
}

/// Whether `line` is a record that opens with `prefix`, a name and its colon.
fn opens_with(line: &[char], prefix: &[char]) -> (b: bool)
    ensures
        b == (!is_comment(line@) && prefix@.is_prefix_of(line@)),
{
    if line.len() > 0 && line[0] == '#' {
        false
    } else {
        starts_with(line, prefix)
    }
}

/// The characters of `name` followed by a colon.
fn prefix_of(name: &str) -> (p: Vec<char>)
    ensures
        p@ == record_prefix(name@),
{
    let mut p = chars_of(name);
    p.push(':');
    p
}

/// Whether the store `content` holds a record of `name`.
pub fn project_exists(content: &str, name: &str) -> (b: bool)
    ensures
        b == has_project(content@, name@),
{
    let cv = chars_of(content);
    let prefix = prefix_of(name);
    let spans = line_bounds(cv.as_slice());
    let mut i: usize = 0;
    while i < spans.len()
        invariant
            cv@ == content@,
            prefix@ == record_prefix(name@),
            bounds_lines(spans@, content@),
            i <= spans@.len(),
            forall|k: int| 0 <= k < i ==> !is_record_of(#[trigger] lines_of(content@)[k], name@),
        decreases spans@.len() - i,
    {
        let (a, b, _) = spans[i];
        let line = slice_subrange(cv.as_slice(), a, b);
        assert(line@ == lines_of(content@)[i as int]);
        if opens_with(line, prefix.as_slice()) {
            return true;
        }
        i += 1;
    }
    false
}

/// The name for a new project that points to `dir`: `given`, or, where
/// `given` is empty, the file name of `dir`. `None` where `dir` has no file
/// name either.
pub fn project_name(given: &str, dir: &str) -> (r: Option<String>)
    ensures
        r is Some == chosen_name(given@, dir@) is Some,
        r matches Some(name) ==> name@ == chosen_name(given@, dir@)->0,
{
    if !given.is_empty() {
        Some(given.to_owned())
    } else {
        base_name(dir)
    }
}

/// Adds the project `name` for `path` to the store `content`: where the
/// store already holds a record of `name`, says so; otherwise gives the line
/// to append.
pub fn add_project(content: &str, name: &str, path: &str) -> (r: AddOutcome)
    ensures
        has_project(content@, name@) ==> (r matches AddOutcome::AlreadyExists { name: n } && n@
            == name@),
        !has_project(content@, name@) ==> (r matches AddOutcome::Added { name: n, line } && n@
            == name@ && line@ == record_line(name@, path@) && content@ + line@ == with_project(
            content@,
            name@,
            path@,
        )),
{
    if project_exists(content, name) {
        return AddOutcome::AlreadyExists { name: name.to_owned() };
    }
    let mut line = name.to_owned();
    line.append(":");
    line.append(path);
    line.append("\n");
    proof {
        reveal_strlit(":");
        reveal_strlit("\n");
        assert(":"@ =~= seq![':']);
        assert("\n"@ =~= seq!['\n']);
    }
    AddOutcome::Added { name: name.to_owned(), line }
}

/// Pushing a line onto `lines` adds what is shown of it to the listing,
/// where it is listed at all.
pub proof fn lemma_listing_push(lines: Seq<Seq<char>>, line: Seq<char>, raw: bool)
    ensures
        listing_of(lines.push(line), raw) == if is_listed(line) {
            listing_of(lines, raw).push(shown(line, raw))
        } else {
            listing_of(lines, raw)
        },
{
    let listed = |l: Seq<char>| is_listed(l);
    let show = |l: Seq<char>| shown(l, raw);
    lines.lemma_filter_push(line, listed);
    lines.filter(listed).lemma_push_map_commute(show, line);
}

/// Pushing a piece onto `pieces` adds it to the text that is kept, unless
/// its line is a record of `name`.
proof fn lemma_kept_push(pieces: Seq<Seq<char>>, piece: Seq<char>, name: Seq<char>)
    ensures
        kept_pieces(pieces.push(piece), name).flatten() == if is_record_of(line_of(piece), name) {
            kept_pieces(pieces, name).flatten()
        } else {
            kept_pieces(pieces, name).flatten() + piece
        },
{
    let keep = |p: Seq<char>| !is_record_of(line_of(p), name);
    pieces.lemma_filter_push(piece, keep);
    pieces.filter(keep).lemma_flatten_push(piece);
}

/// Pushing a record of `name` onto `lines` adds its path to the paths of
/// `name`; another line adds nothing.
pub proof fn lemma_paths_push(lines: Seq<Seq<char>>, line: Seq<char>, name: Seq<char>)
    ensures
        paths_among(lines.push(line), name) == if is_record_of(line, name) {
            paths_among(lines, name).push(path_field(line))
        } else {
            paths_among(lines, name)
        },
{
    let named = |l: Seq<char>| is_record_of(l, name);
    let path = |l: Seq<char>| path_field(l);
    lines.lemma_filter_push(line, named);
    lines.filter(named).lemma_push_map_commute(path, line);
}

/// Where no flag is set, no path is present.
pub proof fn lemma_none_present(paths: Seq<Seq<char>>, present: Seq<bool>)
    requires
        forall|i: int| 0 <= i < present.len() ==> !present[i],
    ensures
        first_present(paths, present) is None,
    decreases paths.len(),
{
    if paths.len() > 0 && present.len() > 0 {
        assert(!present[0]);
        assert forall|i: int| 0 <= i < present.skip(1).len() implies !present.skip(1)[i] by {
            assert(present.skip(1)[i] == present[i + 1]);
        }
        lemma_none_present(paths.skip(1), present.skip(1));
    }
}

/// What a listing of the store `content` shows: one entry for each line
/// that is neither comment nor blank, in file order, which is the name, or
/// with `raw` the whole trimmed line.
pub fn list_projects(content: &str, raw: bool) -> (r: Vec<String>)
    ensures
        r.deep_view() == listing(content@, raw),
{
    let cv = chars_of(content);
    let spans = line_bounds(cv.as_slice());
    let ghost lines = lines_of(content@);
    let mut out: Vec<String> = Vec::new();
    let mut i: usize = 0;
    assert(lines.take(0) =~= Seq::<Seq<char>>::empty());
    assert(out.deep_view() =~= listing_of(lines.take(0), raw));
    while i < spans.len()
        invariant
            cv@ == content@,
            lines == lines_of(content@),
            bounds_lines(spans@, content@),
            i <= spans@.len(),
            out.deep_view() == listing_of(lines.take(i as int), raw),
        decreases spans@.len() - i,
    {
        let (a, b, _) = spans[i];
        let line = slice_subrange(cv.as_slice(), a, b);
        proof {
            assert(line@ == lines[i as int]);
            assert(lines.take(i + 1) =~= lines.take(i as int).push(line@));
            lemma_listing_push(lines.take(i as int), line@, raw);
        }
        let comment = line.len() > 0 && line[0] == '#';
        let (ta, tb) = trim_bounds(line);
        if !comment && ta < tb {
            let ghost before = out.deep_view();
            if raw {
                assert(line@.subrange(ta as int, tb as int) =~= content@.subrange(a + ta, a + tb));
                out.push(content.substring_char(a + ta, a + tb).to_owned());
            } else {
                let k = find_char(line, ':');
                if k < line.len() {
                    let field = slice_subrange(line, 0, k);
                    assert(field@ =~= name_field(line@));
                    let (na, nb) = trim_bounds(field);
                    assert(field@.subrange(na as int, nb as int) =~= content@.subrange(
                        a + na,
                        a + nb,
                    ));
                    out.push(content.substring_char(a + na, a + nb).to_owned());
                } else {
                    out.push(String::new());
                }
            }
            assert(out.deep_view() =~= before.push(shown(line@, raw)));
        }
        i += 1;
    }
    assert(lines.take(spans@.len() as int) =~= lines);
    out
}

/// Removes the project `name` from the store `content`: where the store
/// holds a record of it, gives the store's new text, which is the old text
/// without the lines that are records of `name` and without what ends
/// them; where it holds none, says so.
pub fn remove_project(content: &str, name: &str) -> (r: RemoveOutcome)
    ensures
        has_project(content@, name@) ==> (r matches RemoveOutcome::Removed { name: n, content: c }
            && n@ == name@ && c@ == without_project(content@, name@)),
        !has_project(content@, name@) ==> (r matches RemoveOutcome::NotFound { name: n } && n@
            == name@),
{
    let cv = chars_of(content);
    let prefix = prefix_of(name);
    let spans = line_bounds(cv.as_slice());
    let ghost lines = lines_of(content@);
    let ghost pieces = pieces_of(content@);
    let mut out = String::new();
    let mut found = false;
    let mut i: usize = 0;
    proof {
        lemma_lines_of_pieces(content@);
        assert(pieces.take(0) =~= Seq::<Seq<char>>::empty());
        assert(kept_pieces(pieces.take(0), name@) =~= Seq::<Seq<char>>::empty()) by {
            reveal(Seq::filter);
        }
        assert(out@ =~= kept_pieces(pieces.take(0), name@).flatten());
    }
    while i < spans.len()
        invariant
            cv@ == content@,
            prefix@ == record_prefix(name@),
            lines == lines_of(content@),
            pieces == pieces_of(content@),
            lines == pieces.map_values(|p: Seq<char>| line_of(p)),
            bounds_lines(spans@, content@),
            i <= spans@.len(),
            out@ == kept_pieces(pieces.take(i as int), name@).flatten(),
            found <==> exists|k: int| 0 <= k < i && is_record_of(#[trigger] lines[k], name@),
        decreases spans@.len() - i,
    {
        let (a, b, next) = spans[i];
        let line = slice_subrange(cv.as_slice(), a, b);
        proof {
            assert(line@ == lines[i as int]);
            assert(line@ == line_of(pieces[i as int]));
            assert(pieces.take(i + 1) =~= pieces.take(i as int).push(pieces[i as int]));
            lemma_kept_push(pieces.take(i as int), pieces[i as int], name@);
        }
        if opens_with(line, prefix.as_slice()) {
            found = true;
        } else {
            out.append(content.substring_char(a, next));
        }
        i += 1;
    }
    assert(pieces.take(spans@.len() as int) =~= pieces);
    if found {
        RemoveOutcome::Removed { name: name.to_owned(), content: out }
    } else {
        RemoveOutcome::NotFound { name: name.to_owned() }
    }
}

/// The paths that the store `content` records for `name`, in file order.
/// The caller finds out which of them are there and hands the answers to
/// `project_dir`.
pub fn stored_paths(content: &str, name: &str) -> (r: Vec<String>)
    ensures
        r.deep_view() == paths_of(content@, name@),
{
    let cv = chars_of(content);
    let prefix = prefix_of(name);
    let spans = line_bounds(cv.as_slice());
    let ghost lines = lines_of(content@);
    let mut out: Vec<String> = Vec::new();
    let mut i: usize = 0;
    proof {
        assert(lines.take(0) =~= Seq::<Seq<char>>::empty());
        assert(paths_among(lines.take(0), name@) =~= Seq::<Seq<char>>::empty()) by {
            reveal(Seq::filter);
        }
        assert(out.deep_view() =~= paths_among(lines.take(0), name@));
    }
    while i < spans.len()
        invariant
            cv@ == content@,
            prefix@ == record_prefix(name@),
            lines == lines_of(content@),
            bounds_lines(spans@, content@),
            i <= spans@.len(),
            out.deep_view() == paths_among(lines.take(i as int), name@),
        decreases spans@.len() - i,
    {
        let (a, b, _) = spans[i];
        let line = slice_subrange(cv.as_slice(), a, b);
        proof {
            assert(line@ == lines[i as int]);
            assert(lines.take(i + 1) =~= lines.take(i as int).push(line@));
            lemma_paths_push(lines.take(i as int), line@, name@);
        }
        if opens_with(line, prefix.as_slice()) {
            let ghost before = out.deep_view();
            let k = find_char(line, ':');
            proof {
                lemma_find(line@, ':');
                assert(line@[name@.len() as int] == record_prefix(name@)[name@.len() as int]);
                assert(k < line@.len());
                assert(path_field(line@) =~= content@.subrange(a + k + 1, b as int));
            }
            out.push(content.substring_char(a + k + 1, b).to_owned());
            assert(out.deep_view() =~= before.push(path_field(line@)));
        }
        i += 1;
    }
    assert(lines.take(spans@.len() as int) =~= lines);
    out
}

/// The directory of the project `name`: the first path that the store
/// `content` records for it and that is there. `present` says of each of
/// `stored_paths(content, name)`, in order, whether it is there. A project
/// whose directories are all gone is not found, though its record stands.
pub fn project_dir(content: &str, name: &str, present: &[bool]) -> (r: DirOutcome)
    ensures
        first_present(paths_of(content@, name@), present@) matches Some(p) ==> (r
            matches DirOutcome::Found { path } && path@ == p),
        first_present(paths_of(content@, name@), present@) is None ==> (r
            matches DirOutcome::NotFound { name: n } && n@ == name@),
        (forall|i: int| 0 <= i < present@.len() ==> !present@[i]) ==> r is NotFound,
{
    let mut paths = stored_paths(content, name);
    let ghost all = paths.deep_view();
    let n = if paths.len() < present.len() {
        paths.len()
    } else {
        present.len()
    };
    let mut i: usize = 0;
    proof {
        assert(all.skip(0) =~= all);
        assert(present@.skip(0) =~= present@);
        if forall|i: int| 0 <= i < present@.len() ==> !present@[i] {
            lemma_none_present(all, present@);
        }
    }
    while i < n
        invariant
            all == paths.deep_view(),
            all == paths_of(content@, name@),
            (forall|i: int| 0 <= i < present@.len() ==> !present@[i]) ==> first_present(
                all,
                present@,
            ) is None,
            n <= paths@.len(),
            n <= present@.len(),
            n == paths@.len() || n == present@.len(),
            i <= n,
            first_present(all, present@) == first_present(
                all.skip(i as int),
                present@.skip(i as int),
            ),
        decreases n - i,
    {
        if present[i] {
            let path = paths.swap_remove(i);
            assert(path@ == all[i as int]);
            return DirOutcome::Found { path };
        }
        assert(all.skip(i as int).skip(1) =~= all.skip(i + 1));
        assert(present@.skip(i as int).skip(1) =~= present@.skip(i + 1));
        i += 1;
    }
    DirOutcome::NotFound { name: name.to_owned() }
}

} // verus!
