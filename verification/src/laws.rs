//! What holds of the store from one operation to the next.
//!
//! The store is a text that users may edit. What is said of removing holds
//! of every text. What is said of adding needs a text whose last line is
//! complete and a name that can be found again: each statement says in its
//! `requires` what it needs.

use vstd::prelude::*;
use crate::store::{
    ends_complete, has_project, is_comment, is_listed, is_record_of, kept_lines, kept_pieces,
    lemma_listing_push, lemma_paths_push, listing, listing_of, name_field, path_field,
    paths_among, paths_of, record_line, record_prefix, records_of, shown, with_project,
    without_project, STORE_HEADER,
};
use crate::text::{
    find, is_cut, is_piece, lemma_find, lemma_find_is, lemma_lines_concat,
    lemma_lines_of_one_line, lemma_lines_of_pieces, lemma_pieces_are_cut, lemma_pieces_concat,
    lemma_pieces_flatten, lemma_pieces_of_cut, lemma_pieces_of_one_line, line_of, lines_of,
    pieces_of, strip_cr, trim_end, trim_start, trimmed, whitespace,
};

verus! {

/// Whether `text` holds no line feed.
pub open spec fn on_one_line(text: Seq<char>) -> bool {
    forall|j: int| 0 <= j < text.len() ==> text[j] != '\n'
}

/// Whether `text` holds no colon.
pub open spec fn colon_free(text: Seq<char>) -> bool {
    forall|j: int| 0 <= j < text.len() ==> text[j] != ':'
}

/// Whether `name` can be found again once recorded: it stands on one line
/// and does not turn its record into a comment.
pub open spec fn is_name(name: Seq<char>) -> bool {
    on_one_line(name) && !is_comment(name)
}

/// Whether `text` is not empty and neither begins nor ends with whitespace,
/// so that trimming leaves it as it is.
pub open spec fn is_tidy(text: Seq<char>) -> bool {
    text.len() > 0 && !whitespace(text[0]) && !whitespace(text.last())
}

/// The first line of the record written for `name` is a record of `name`.
proof fn lemma_record_line_names(name: Seq<char>, path: Seq<char>)
    requires
        is_name(name),
    ensures
        lines_of(record_line(name, path)).len() > 0,
        is_record_of(lines_of(record_line(name, path))[0], name),
{
    let r = record_line(name, path);
    let p = record_prefix(name);
    lemma_find(r, '\n');
    let k = find(r, '\n');
    assert(r.last() == '\n');
    assert(k < r.len()) by {
        if k == r.len() {
            assert(r[r.len() - 1] != '\n');
        }
    }
    assert(k > name.len()) by {
        if k <= name.len() {
            assert(r[k] == '\n');
            if k < name.len() {
                assert(r[k] == name[k]);
            } else {
                assert(r[k] == ':');
            }
        }
    }
    let whole = r.take(k);
    let head = strip_cr(whole);
    assert(whole[name.len() as int] == ':');
    assert(head.len() >= p.len());
    assert(head.subrange(0, p.len() as int) =~= p);
    assert(head[0] == p[0]);
    assert(lines_of(r)[0] == head);
}

/// Stripping a carriage return from a line does not change whose record
/// the line is.
proof fn lemma_strip_cr_keeps_record(line: Seq<char>, name: Seq<char>)
    ensures
        is_record_of(strip_cr(line), name) == is_record_of(line, name),
{
    let p = record_prefix(name);
    let short = strip_cr(line);
    if line.len() > 0 && line.last() == '\r' {
        assert(p.last() == ':');
        if p.is_prefix_of(line) {
            assert(p.len() < line.len()) by {
                if p.len() == line.len() {
                    assert(line.subrange(0, p.len() as int) =~= line);
                }
            }
            assert(short.subrange(0, p.len() as int) =~= line.subrange(0, p.len() as int));
            assert(short[0] == line[0]);
        }
        if p.is_prefix_of(short) {
            assert(line.subrange(0, p.len() as int) =~= short.subrange(0, p.len() as int));
            assert(short[0] == line[0]);
        }
    }
}

/// A filter that every element passes takes nothing out.
proof fn lemma_filter_all(s: Seq<Seq<char>>, pred: spec_fn(Seq<char>) -> bool)
    requires
        forall|i: int| 0 <= i < s.len() ==> pred(#[trigger] s[i]),
    ensures
        s.filter(pred) == s,
    decreases s.len(),
{
    if s.len() == 0 {
        reveal(Seq::filter);
        assert(s.filter(pred) =~= s);
    } else {
        let front = s.drop_last();
        assert(s =~= front.push(s.last()));
        assert forall|i: int| 0 <= i < front.len() implies pred(#[trigger] front[i]) by {
            assert(front[i] == s[i]);
        }
        lemma_filter_all(front, pred);
        front.lemma_filter_push(s.last(), pred);
        assert(pred(s[s.len() - 1]));
    }
}

/// A filter that no element passes leaves nothing.
proof fn lemma_filter_none(s: Seq<Seq<char>>, pred: spec_fn(Seq<char>) -> bool)
    requires
        forall|i: int| 0 <= i < s.len() ==> !pred(#[trigger] s[i]),
    ensures
        s.filter(pred) == Seq::<Seq<char>>::empty(),
    decreases s.len(),
{
    if s.len() == 0 {
        reveal(Seq::filter);
        assert(s.filter(pred) =~= Seq::<Seq<char>>::empty());
    } else {
        let front = s.drop_last();
        assert(s =~= front.push(s.last()));
        assert forall|i: int| 0 <= i < front.len() implies !pred(#[trigger] front[i]) by {
            assert(front[i] == s[i]);
        }
        lemma_filter_none(front, pred);
        front.lemma_filter_push(s.last(), pred);
        assert(!pred(s[s.len() - 1]));
    }
}

/// A filter that every element passes but the one at `at` takes out that
/// one alone.
proof fn lemma_filter_all_but_one(s: Seq<Seq<char>>, pred: spec_fn(Seq<char>) -> bool, at: int)
    requires
        0 <= at < s.len(),
        forall|i: int| 0 <= i < s.len() ==> (pred(#[trigger] s[i]) <==> i != at),
    ensures
        s.filter(pred) == s.remove(at),
    decreases s.len(),
{
    let front = s.drop_last();
    let last = s.last();
    assert(s =~= front.push(last));
    front.lemma_filter_push(last, pred);
    if at == s.len() - 1 {
        assert forall|i: int| 0 <= i < front.len() implies pred(#[trigger] front[i]) by {
            assert(front[i] == s[i]);
        }
        lemma_filter_all(front, pred);
        assert(!pred(s[at]));
        assert(s.remove(at) =~= front);
    } else {
        assert forall|i: int| 0 <= i < front.len() implies (pred(#[trigger] front[i]) <==> i
            != at) by {
            assert(front[i] == s[i]);
        }
        lemma_filter_all_but_one(front, pred, at);
        assert(pred(s[s.len() - 1]));
        assert(front.remove(at).push(last) =~= s.remove(at));
    }
}

/// Lines of which none is a record of `name` hold no record of `name`.
proof fn lemma_no_records(lines: Seq<Seq<char>>, name: Seq<char>)
    requires
        forall|i: int| 0 <= i < lines.len() ==> !is_record_of(#[trigger] lines[i], name),
    ensures
        records_of(lines, name) == Seq::<Seq<char>>::empty(),
        kept_lines(lines, name) == lines,
{
    lemma_filter_none(lines, |l: Seq<char>| is_record_of(l, name));
    lemma_filter_all(lines, |l: Seq<char>| !is_record_of(l, name));
}

/// The lines of the pieces that are kept are the lines that are kept.
proof fn lemma_kept_lines_of_pieces(pieces: Seq<Seq<char>>, name: Seq<char>)
    ensures
        kept_pieces(pieces, name).map_values(|p: Seq<char>| line_of(p)) == kept_lines(
            pieces.map_values(|p: Seq<char>| line_of(p)),
            name,
        ),
    decreases pieces.len(),
{
    let line = |p: Seq<char>| line_of(p);
    let keep_piece = |p: Seq<char>| !is_record_of(line_of(p), name);
    let keep_line = |l: Seq<char>| !is_record_of(l, name);
    if pieces.len() == 0 {
        reveal(Seq::filter);
        assert(pieces.filter(keep_piece).map_values(line) =~= pieces.map_values(line).filter(
            keep_line,
        ));
    } else {
        let front = pieces.drop_last();
        let last = pieces.last();
        assert(pieces =~= front.push(last));
        lemma_kept_lines_of_pieces(front, name);
        front.lemma_filter_push(last, keep_piece);
        front.lemma_push_map_commute(line, last);
        front.map_values(line).lemma_filter_push(line_of(last), keep_line);
        front.filter(keep_piece).lemma_push_map_commute(line, last);
    }
}

/// The pieces that are kept of the pieces of a text put together make a
/// text that has exactly those pieces.
proof fn lemma_kept_pieces_are_cut(pieces: Seq<Seq<char>>, name: Seq<char>)
    requires
        is_cut(pieces),
    ensures
        is_cut(kept_pieces(pieces, name)),
{
    let keep = |p: Seq<char>| !is_record_of(line_of(p), name);
    let kept = kept_pieces(pieces, name);
    if pieces.len() == 0 {
        reveal(Seq::filter);
        assert(kept =~= pieces);
    } else {
        let front = pieces.drop_last();
        let last = pieces.last();
        let head = front.filter(keep);
        assert(pieces =~= front.push(last));
        front.lemma_filter_push(last, keep);
        assert forall|i: int| 0 <= i < head.len() implies is_piece(#[trigger] head[i])
            && head[i].last() == '\n' by {
            assert(head.contains(head[i]));
            front.lemma_filter_contains_rev(keep, head[i]);
            let j = choose|j: int| 0 <= j < front.len() && front[j] == head[i];
            assert(front[j] == pieces[j]);
        }
        assert(is_piece(pieces[pieces.len() - 1]));
        assert forall|i: int| 0 <= i < kept.len() implies is_piece(#[trigger] kept[i]) && (i
            < kept.len() - 1 ==> kept[i].last() == '\n') by {
            if i < head.len() {
                assert(kept[i] == head[i]);
            }
        }
    }
}

/// After a project has been added, the store holds it.
pub proof fn lemma_added_project_exists(content: Seq<char>, name: Seq<char>, path: Seq<char>)
    requires
        ends_complete(content),
        is_name(name),
    ensures
        has_project(with_project(content, name, path), name),
{
    if !has_project(content, name) {
        let r = record_line(name, path);
        lemma_lines_concat(content, r);
        lemma_record_line_names(name, path);
        let at = lines_of(content).len() as int;
        assert(lines_of(content + r)[at] == lines_of(r)[0]);
    }
}

/// Adding a project leaves every other name as it was: held if it was
/// held, and not held if it was not. A name counts as another where the new
/// record is no record of it.
pub proof fn lemma_add_keeps_other_projects(
    content: Seq<char>,
    name: Seq<char>,
    path: Seq<char>,
    other: Seq<char>,
)
    requires
        ends_complete(content),
        on_one_line(name),
        on_one_line(path),
        !is_record_of(name + seq![':'] + path, other),
    ensures
        has_project(with_project(content, name, path), other) == has_project(content, other),
{
    if !has_project(content, name) {
        let line = name + seq![':'] + path;
        let r = record_line(name, path);
        let old_lines = lines_of(content);
        assert(r =~= line.push('\n'));
        lemma_lines_concat(content, r);
        lemma_lines_of_one_line(line);
        lemma_strip_cr_keeps_record(line, other);
        let new_lines = lines_of(content + r);
        assert(new_lines =~= old_lines.push(strip_cr(line)));
        if has_project(content, other) {
            let i = choose|i: int|
                0 <= i < old_lines.len() && is_record_of(#[trigger] old_lines[i], other);
            assert(new_lines[i] == old_lines[i]);
        }
        if has_project(content + r, other) {
            let i = choose|i: int|
                0 <= i < new_lines.len() && is_record_of(#[trigger] new_lines[i], other);
            assert(i < old_lines.len());
            assert(new_lines[i] == old_lines[i]);
        }
    }
}

/// The record of a name without colon is no record of another name without
/// colon.
pub proof fn lemma_plain_names_are_apart(name: Seq<char>, path: Seq<char>, other: Seq<char>)
    requires
        colon_free(name),
        colon_free(other),
        name != other,
    ensures
        !is_record_of(name + seq![':'] + path, other),
{
    let line = name + seq![':'] + path;
    let p = record_prefix(other);
    if p.is_prefix_of(line) {
        assert(line.subrange(0, p.len() as int)[other.len() as int] == ':');
        if other.len() < name.len() {
            assert(line[other.len() as int] == name[other.len() as int]);
        } else if other.len() > name.len() {
            assert(line.subrange(0, p.len() as int)[name.len() as int] == other[name.len() as int]);
            assert(line[name.len() as int] == ':');
        } else {
            assert forall|j: int| 0 <= j < name.len() implies name[j] == other[j] by {
                assert(line.subrange(0, p.len() as int)[j] == p[j]);
            }
            assert(name =~= other);
        }
    }
}

/// Adding a name a second time changes nothing, whatever the path.
pub proof fn lemma_add_twice(
    content: Seq<char>,
    name: Seq<char>,
    path: Seq<char>,
    again: Seq<char>,
)
    requires
        ends_complete(content),
        is_name(name),
    ensures
        with_project(with_project(content, name, path), name, again) == with_project(
            content,
            name,
            path,
        ),
{
    lemma_added_project_exists(content, name, path);
}

/// After a name that the store did not hold has been added, the store holds
/// exactly one record of it.
pub proof fn lemma_added_once(content: Seq<char>, name: Seq<char>, path: Seq<char>)
    requires
        ends_complete(content),
        is_name(name),
        on_one_line(path),
        !has_project(content, name),
    ensures
        records_of(lines_of(with_project(content, name, path)), name).len() == 1,
{
    let line = name + seq![':'] + path;
    let r = record_line(name, path);
    let old_lines = lines_of(content);
    assert(r =~= line.push('\n'));
    lemma_lines_concat(content, r);
    lemma_lines_of_one_line(line);
    lemma_record_line_names(name, path);
    assert(lines_of(content + r) =~= old_lines.push(strip_cr(line)));
    lemma_no_records(old_lines, name);
    old_lines.lemma_filter_push(strip_cr(line), |l: Seq<char>| is_record_of(l, name));
}

/// Removing a project removes its records and nothing else: the pieces of
/// the new store are the other pieces of the old one, each as it was, line
/// ending included, and in the same order. So its lines are the other lines
/// of the old store, comments and blank lines among them.
pub proof fn lemma_remove_keeps_other_lines(content: Seq<char>, name: Seq<char>)
    ensures
        pieces_of(without_project(content, name)) == kept_pieces(pieces_of(content), name),
        lines_of(without_project(content, name)) == kept_lines(lines_of(content), name),
{
    let pieces = pieces_of(content);
    lemma_pieces_are_cut(content);
    lemma_kept_pieces_are_cut(pieces, name);
    lemma_pieces_of_cut(kept_pieces(pieces, name));
    lemma_lines_of_pieces(content);
    lemma_lines_of_pieces(without_project(content, name));
    lemma_kept_lines_of_pieces(pieces, name);
}

/// Where exactly one line of the store is a record of the name, removing
/// the project takes out that line alone: the store has one line less, and
/// every other line, with its line ending, is as it was and where it was
/// among the others.
pub proof fn lemma_remove_takes_one_line(content: Seq<char>, name: Seq<char>, at: int)
    requires
        0 <= at < lines_of(content).len(),
        forall|i: int|
            0 <= i < lines_of(content).len() ==> (is_record_of(
                #[trigger] lines_of(content)[i],
                name,
            ) <==> i == at),
    ensures
        lines_of(without_project(content, name)) == lines_of(content).remove(at),
        pieces_of(without_project(content, name)) == pieces_of(content).remove(at),
{
    let lines = lines_of(content);
    let pieces = pieces_of(content);
    lemma_remove_keeps_other_lines(content, name);
    lemma_lines_of_pieces(content);
    lemma_filter_all_but_one(lines, |l: Seq<char>| !is_record_of(l, name), at);
    assert forall|i: int| 0 <= i < pieces.len() implies (!is_record_of(
        line_of(#[trigger] pieces[i]),
        name,
    ) <==> i != at) by {
        assert(lines[i] == line_of(pieces[i]));
    }
    lemma_filter_all_but_one(pieces, |p: Seq<char>| !is_record_of(line_of(p), name), at);
}

/// After a project has been removed, the store holds it no more.
pub proof fn lemma_removed_project_is_gone(content: Seq<char>, name: Seq<char>)
    ensures
        !has_project(without_project(content, name), name),
{
    let lines = lines_of(content);
    let keep = |l: Seq<char>| !is_record_of(l, name);
    let left = lines_of(without_project(content, name));
    lemma_remove_keeps_other_lines(content, name);
    assert forall|i: int| 0 <= i < left.len() implies !is_record_of(#[trigger] left[i], name) by {
        lines.lemma_filter_pred(keep, i);
    }
}

/// Removing a name that the store does not hold would take out nothing:
/// the text would stay as it is.
pub proof fn lemma_remove_missing_keeps_all(content: Seq<char>, name: Seq<char>)
    requires
        !has_project(content, name),
    ensures
        without_project(content, name) == content,
        kept_lines(lines_of(content), name) == lines_of(content),
{
    let lines = lines_of(content);
    let pieces = pieces_of(content);
    lemma_no_records(lines, name);
    lemma_lines_of_pieces(content);
    assert forall|i: int| 0 <= i < pieces.len() implies !is_record_of(
        line_of(#[trigger] pieces[i]),
        name,
    ) by {
        assert(lines[i] == line_of(pieces[i]));
    }
    lemma_filter_all(pieces, |p: Seq<char>| !is_record_of(line_of(p), name));
    lemma_pieces_flatten(content);
}

/// Removing a project that has just been added gives back the store as it
/// was.
pub proof fn lemma_remove_undoes_add(content: Seq<char>, name: Seq<char>, path: Seq<char>)
    requires
        ends_complete(content),
        is_name(name),
        on_one_line(path),
        !has_project(content, name),
    ensures
        without_project(with_project(content, name, path), name) == content,
{
    let line = name + seq![':'] + path;
    let r = record_line(name, path);
    let pieces = pieces_of(content);
    let keep = |p: Seq<char>| !is_record_of(line_of(p), name);
    assert(r =~= line.push('\n'));
    lemma_pieces_concat(content, r);
    lemma_pieces_of_one_line(line);
    lemma_lines_of_one_line(line);
    lemma_record_line_names(name, path);
    assert(pieces_of(content + r) =~= pieces.push(r));
    assert(r.drop_last() =~= line);
    assert(line_of(r) == strip_cr(line));
    pieces.lemma_filter_push(r, keep);
    lemma_remove_missing_keeps_all(content, name);
}

/// A project that has been added is listed last: the listing of the store
/// is the one before with one more entry, which is the name or, in raw
/// form, the record. This needs a name that a listing shows as it is: not
/// empty, without colon, and without whitespace at either end; and a path
/// that does not end in whitespace.
pub proof fn lemma_added_project_is_listed(
    content: Seq<char>,
    name: Seq<char>,
    path: Seq<char>,
    raw: bool,
)
    requires
        ends_complete(content),
        is_name(name),
        colon_free(name),
        is_tidy(name),
        on_one_line(path),
        path.len() == 0 || !whitespace(path.last()),
        !has_project(content, name),
    ensures
        listing(with_project(content, name, path), raw) == listing(content, raw).push(
            if raw {
                name + seq![':'] + path
            } else {
                name
            },
        ),
{
    let line = name + seq![':'] + path;
    let r = record_line(name, path);
    assert(r =~= line.push('\n'));
    lemma_lines_concat(content, r);
    lemma_lines_of_one_line(line);
    assert(!whitespace(':'));
    assert(whitespace('\r'));
    assert(!whitespace(line.last()));
    assert(strip_cr(line) == line);
    assert(lines_of(content + r) =~= lines_of(content).push(line));
    lemma_listing_push(lines_of(content), line, raw);
    assert(line[0] == name[0]);
    assert(trim_start(line) == line);
    assert(trim_end(line) == line);
    assert(trimmed(line) == line);
    assert(is_listed(line));
    lemma_record_fields(name, path);
    assert(trim_start(name) == name);
    assert(trim_end(name) == name);
    assert(shown(line, false) == name);
}

/// The record of a name without colon parts at the colon that follows the
/// name: its name field is the name and its path field the path.
proof fn lemma_record_fields(name: Seq<char>, path: Seq<char>)
    requires
        colon_free(name),
    ensures
        find(name + seq![':'] + path, ':') == name.len(),
        name_field(name + seq![':'] + path) == name,
        path_field(name + seq![':'] + path) == path,
        is_name(name) ==> is_record_of(name + seq![':'] + path, name),
{
    let line = name + seq![':'] + path;
    let p = record_prefix(name);
    lemma_find_is(line, ':', name.len() as int);
    assert(line.take(name.len() as int) =~= name);
    assert(line.skip(name.len() as int + 1) =~= path);
    assert(line.subrange(0, p.len() as int) =~= p);
    assert(line[0] == p[0]);
}

/// A project that has been added is recorded at its path and nowhere else.
/// This needs a name without colon, since a path starts after the first
/// colon of its line, and a path that does not end in a carriage return.
pub proof fn lemma_added_project_has_its_path(
    content: Seq<char>,
    name: Seq<char>,
    path: Seq<char>,
)
    requires
        ends_complete(content),
        is_name(name),
        colon_free(name),
        on_one_line(path),
        path.len() == 0 || path.last() != '\r',
        !has_project(content, name),
    ensures
        paths_of(with_project(content, name, path), name) == seq![path],
{
    let line = name + seq![':'] + path;
    let r = record_line(name, path);
    let old_lines = lines_of(content);
    assert(lines_of(content + r) == old_lines.push(line)) by {
        assert(r =~= line.push('\n'));
        lemma_lines_concat(content, r);
        lemma_lines_of_one_line(line);
        assert(strip_cr(line) == line);
        assert(old_lines + seq![line] =~= old_lines.push(line));
    }
    assert(paths_among(old_lines, name) == Seq::<Seq<char>>::empty()) by {
        lemma_no_records(old_lines, name);
        assert(records_of(old_lines, name).map_values(|l: Seq<char>| path_field(l))
            =~= Seq::<Seq<char>>::empty());
    }
    lemma_record_fields(name, path);
    lemma_paths_push(old_lines, line, name);
    assert(Seq::<Seq<char>>::empty().push(path) =~= seq![path]);
}

/// After a project has been removed, the listing shows what the other
/// lines of the store showed before.
pub proof fn lemma_listing_after_remove(content: Seq<char>, name: Seq<char>, raw: bool)
    ensures
        listing(without_project(content, name), raw) == listing_of(
            kept_lines(lines_of(content), name),
            raw,
        ),
{
    lemma_remove_keeps_other_lines(content, name);
}

/// A new store, which holds the header and nothing else, holds no project
/// and lists nothing.
pub proof fn lemma_new_store_is_empty(name: Seq<char>, raw: bool)
    ensures
        !has_project(STORE_HEADER@ + seq!['\n'], name),
        listing(STORE_HEADER@ + seq!['\n'], raw) == Seq::<Seq<char>>::empty(),
{
    reveal_strlit("# File to store your projects for PS");
    let header = STORE_HEADER@;
    assert(header.len() == 36);
    assert(on_one_line(header));
    assert(header.push('\n') =~= header + seq!['\n']);
    lemma_lines_of_one_line(header);
    assert(lines_of(header + seq!['\n']) == seq![header]);
    assert(is_comment(header));
    let none = Seq::<Seq<char>>::empty();
    let listed = |l: Seq<char>| is_listed(l);
    assert(none.filter(listed) =~= none) by {
        reveal(Seq::filter);
    }
    none.lemma_filter_push(header, listed);
    assert(seq![header] =~= none.push(header));
    assert(listing(header + seq!['\n'], raw) =~= none);
}

} // verus!
