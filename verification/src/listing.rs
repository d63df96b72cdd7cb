use vstd::prelude::*;
use crate::text::{
    chars_equal, chars_of, is_white_space, slice_chars, string_of, trim, trim_bounds, trim_end,
    trim_end_char, trimmed_end,
};

verus! {

/// An entry line as the listing keeps it: without trailing slashes.
pub open spec fn entry_of_line(line: Seq<char>) -> Seq<char> {
    trim_end_char(line, '/')
}

/// `line` without one trailing carriage return.
pub open spec fn strip_cr(line: Seq<char>) -> Seq<char> {
    if line.len() > 0 && line.last() == '\r' {
        line.drop_last()
    } else {
        line
    }
}

/// The characters of `text` after its last newline.
pub open spec fn open_line(text: Seq<char>) -> Seq<char>
    decreases text.len(),
{
    if text.len() == 0 {
        seq![]
    } else if text.last() == '\n' {
        seq![]
    } else {
        open_line(text.drop_last()).push(text.last())
    }
}

/// `acc` with `entry` appended when it is not empty.
pub open spec fn keep_nonempty(acc: Seq<Seq<char>>, entry: Seq<char>) -> Seq<Seq<char>> {
    if entry.len() > 0 {
        acc.push(entry)
    } else {
        acc
    }
}

/// The non-empty entries of the newline-terminated lines of `text`; a line
/// ended by "\r\n" loses its carriage return.
pub open spec fn closed_entries(text: Seq<char>) -> Seq<Seq<char>>
    decreases text.len(),
{
    if text.len() == 0 {
        seq![]
    } else if text.last() == '\n' {
        keep_nonempty(
            closed_entries(text.drop_last()),
            entry_of_line(strip_cr(open_line(text.drop_last()))),
        )
    } else {
        closed_entries(text.drop_last())
    }
}

/// The entries that a tool's listing `text` names: its lines, as
/// `str::lines` splits them, each without trailing slashes, the empty ones
/// left out.
pub open spec fn listing_entries(text: Seq<char>) -> Seq<Seq<char>> {
    keep_nonempty(closed_entries(text), entry_of_line(open_line(text)))
}

proof fn lemma_trimmed_line_clean(line: Seq<char>)
    ensures
        entry_of_line(line).len() > 0 ==> entry_of_line(line).last() != '/',
    decreases line.len(),
{
    if line.len() > 0 && line.last() == '/' {
        lemma_trimmed_line_clean(line.drop_last());
    }
}

/// Every entry of `acc` is non-empty and does not end with a slash.
pub open spec fn all_clean(acc: Seq<Seq<char>>) -> bool {
    forall|i: int| 0 <= i < acc.len() ==> #[trigger] acc[i].len() > 0 && acc[i].last() != '/'
}

proof fn lemma_closed_entries_clean(text: Seq<char>)
    ensures
        all_clean(closed_entries(text)),
    decreases text.len(),
{
    if text.len() > 0 {
        lemma_closed_entries_clean(text.drop_last());
        lemma_trimmed_line_clean(strip_cr(open_line(text.drop_last())));
    }
}

/// A listing names no empty entry and no entry that ends with a slash.
pub proof fn lemma_listing_entries_clean(text: Seq<char>)
    ensures
        all_clean(listing_entries(text)),
{
    lemma_closed_entries_clean(text);
    lemma_trimmed_line_clean(open_line(text));
}

proof fn lemma_single_line(l: Seq<char>)
    requires
        !l.contains('\n'),
    ensures
        closed_entries(l) == Seq::<Seq<char>>::empty(),
        open_line(l) == l,
    decreases l.len(),
{
    if l.len() > 0 {
        assert(l.last() == l[l.len() - 1]);
        assert(!l.drop_last().contains('\n')) by {
            if l.drop_last().contains('\n') {
                let j = choose|j: int| 0 <= j < l.drop_last().len() && l.drop_last()[j] == '\n';
                assert(l[j] == '\n');
            }
        }
        lemma_single_line(l.drop_last());
        assert(open_line(l.drop_last()).push(l.last()) =~= l);
    } else {
        assert(l =~= Seq::<char>::empty());
    }
}

proof fn lemma_after_first_line(l: Seq<char>, rest: Seq<char>)
    requires
        !l.contains('\n'),
    ensures
        closed_entries(l + seq!['\n'] + rest) == listing_entries(strip_cr(l)) + closed_entries(rest),
        open_line(l + seq!['\n'] + rest) == open_line(rest),
    decreases rest.len(),
{
    let t = l + seq!['\n'] + rest;
    if rest.len() == 0 {
        assert(t =~= l.push('\n'));
        assert(t.drop_last() =~= l);
        lemma_single_line(l);
        let m = strip_cr(l);
        assert(!m.contains('\n')) by {
            if m.contains('\n') {
                let j = choose|j: int| 0 <= j < m.len() && m[j] == '\n';
                assert(l[j] == '\n');
            }
        }
        lemma_single_line(m);
        assert(closed_entries(rest) =~= Seq::<Seq<char>>::empty());
        assert(listing_entries(m) + closed_entries(rest) =~= listing_entries(m));
        assert(keep_nonempty(Seq::<Seq<char>>::empty(), entry_of_line(strip_cr(l)))
            == listing_entries(m));
    } else {
        assert(t.drop_last() =~= l + seq!['\n'] + rest.drop_last());
        assert(t.last() == rest.last());
        lemma_after_first_line(l, rest.drop_last());
        let a = listing_entries(strip_cr(l));
        let x = closed_entries(rest.drop_last());
        let e = entry_of_line(strip_cr(open_line(rest.drop_last())));
        if e.len() > 0 {
            assert((a + x).push(e) =~= a + x.push(e));
        }
    }
}

/// A listing is read line by line: the entries of a text that starts with
/// a line `l` ended by a newline, or by a carriage return and a newline,
/// are the entries of `l` alone followed by the entries of the rest.
pub proof fn lemma_listing_line_by_line(l: Seq<char>, rest: Seq<char>)
    requires
        !l.contains('\n'),
    ensures
        l.len() == 0 || l.last() != '\r' ==> listing_entries(l + seq!['\n'] + rest)
            == listing_entries(l) + listing_entries(rest),
        listing_entries(l + seq!['\r', '\n'] + rest) == listing_entries(l) + listing_entries(rest),
{
    lemma_line_by_line(l, rest);
    let l2 = l.push('\r');
    assert(!l2.contains('\n')) by {
        if l2.contains('\n') {
            let j = choose|j: int| 0 <= j < l2.len() && l2[j] == '\n';
            assert(l[j] == '\n');
        }
    }
    lemma_line_by_line(l2, rest);
    assert(l2 + seq!['\n'] + rest =~= l + seq!['\r', '\n'] + rest);
    assert(strip_cr(l2) =~= l);
}

proof fn lemma_line_by_line(l: Seq<char>, rest: Seq<char>)
    requires
        !l.contains('\n'),
    ensures
        listing_entries(l + seq!['\n'] + rest) == listing_entries(strip_cr(l)) + listing_entries(rest),
{
    lemma_after_first_line(l, rest);
    let a = listing_entries(strip_cr(l));
    let x = closed_entries(rest);
    let e = entry_of_line(open_line(rest));
    if e.len() > 0 {
        assert((a + x).push(e) =~= a + x.push(e));
    }
}

/// A single line (no newline) names the one entry it holds, its trailing
/// slashes dropped: a line that does not end with a slash is that entry;
/// a line made only of slashes, or empty, names none.
pub proof fn lemma_listing_single_line(l: Seq<char>)
    requires
        !l.contains('\n'),
    ensures
        l.len() > 0 && l.last() != '/' ==> listing_entries(l) == seq![l],
        l.len() > 0 && l.last() == '/' ==> listing_entries(l) == listing_entries(l.drop_last()),
        l.len() == 0 ==> listing_entries(l) == Seq::<Seq<char>>::empty(),
{
    lemma_single_line(l);
    if l.len() > 0 {
        assert(!l.drop_last().contains('\n')) by {
            if l.drop_last().contains('\n') {
                let j = choose|j: int| 0 <= j < l.drop_last().len() && l.drop_last()[j] == '\n';
                assert(l[j] == '\n');
            }
        }
        lemma_single_line(l.drop_last());
    }
    assert(Seq::<Seq<char>>::empty().push(l) =~= seq![l]);
}

fn push_entry(out: &mut Vec<String>, line: &[char], end: usize)
    requires
        end <= line@.len(),
    ensures
        final(out).deep_view() == keep_nonempty(
            old(out).deep_view(),
            entry_of_line(line@.take(end as int)),
        ),
{
    let k = trimmed_end(line, end, '/');
    if k > 0 {
        let entry = slice_chars(line, 0, k);
        proof {
            assert(line@.subrange(0, k as int) =~= line@.take(k as int));
        }
        let ghost before = out.deep_view();
        out.push(string_of(&entry));
        proof {
            assert(out.deep_view() =~= before.push(line@.take(k as int)));
        }
    }
}

/// The entries named by the standard output of a listing tool, one per
/// line, without trailing slashes and without empty lines.
pub fn listing_lines(stdout: &str) -> (r: Vec<String>)
    ensures
        r.deep_view() == listing_entries(stdout@),
{
    let text = chars_of(stdout);
    let mut out: Vec<String> = Vec::new();
    let mut line: Vec<char> = Vec::new();
    let mut i: usize = 0;
    proof {
        assert(text@.take(0) =~= Seq::<char>::empty());
        assert(out.deep_view() =~= Seq::<Seq<char>>::empty());
    }
    while i < text.len()
        invariant
            i <= text@.len(),
            line@ == open_line(text@.take(i as int)),
            out.deep_view() == closed_entries(text@.take(i as int)),
        decreases text@.len() - i,
    {
        let c = text[i];
        proof {
            assert(text@.take(i + 1).drop_last() =~= text@.take(i as int));
            assert(text@.take(i + 1).last() == c);
        }
        if c == '\n' {
            let len = line.len();
            let end = if len > 0 && line[len - 1] == '\r' {
                len - 1
            } else {
                len
            };
            proof {
                assert(line@.take(end as int) =~= strip_cr(line@));
            }
            push_entry(&mut out, &line, end);
            line = Vec::new();
            proof {
                assert(line@ =~= open_line(text@.take(i + 1)));
            }
        } else {
            line.push(c);
        }
        i = i + 1;
    }
    proof {
        assert(text@.take(text@.len() as int) =~= text@);
        assert(line@.take(line@.len() as int) =~= line@);
    }
    let len = line.len();
    push_entry(&mut out, &line, len);
    out
}


/// The line that separates the header of a `7z l -slt` listing from its
/// entries.
pub open spec fn separator_line() -> Seq<char> {
    seq!['-', '-', '-', '-', '-', '-', '-', '-', '-', '-']
}

/// The key that opens the line naming an entry in a `7z l -slt` listing.
pub open spec fn path_key() -> Seq<char> {
    seq!['P', 'a', 't', 'h', ' ', '=', ' ']
}

/// `line`, trimmed of white space, is the separator line.
pub open spec fn is_separator(line: Seq<char>) -> bool {
    trim(line) == separator_line()
}

/// Some line of `lines` is the separator line.
pub open spec fn seen_separator(lines: Seq<Seq<char>>) -> bool {
    exists|i: int| 0 <= i < lines.len() && is_separator(#[trigger] lines[i])
}

/// `line` opens with the key "Path = ".
pub open spec fn names_path(line: Seq<char>) -> bool {
    line.len() >= 7 && line.take(7) == path_key()
}

/// The entries of a `7z l -slt` listing: for each line after the first
/// separator line that opens with "Path = ", the rest of that line.
pub open spec fn sevenzip_entries(lines: Seq<Seq<char>>) -> Seq<Seq<char>>
    decreases lines.len(),
{
    if lines.len() == 0 {
        seq![]
    } else {
        let earlier = sevenzip_entries(lines.drop_last());
        let line = lines.last();
        if !is_separator(line) && seen_separator(lines.drop_last()) && names_path(line) {
            earlier.push(line.skip(7))
        } else {
            earlier
        }
    }
}

proof fn lemma_trim_keeps_first(x: Seq<char>)
    requires
        x.len() > 0,
        !is_white_space(x[0]),
    ensures
        trim(x).len() > 0,
        trim(x)[0] == x[0],
{
    lemma_trim_end_keeps_first(x);
}

proof fn lemma_trim_end_keeps_first(x: Seq<char>)
    requires
        x.len() > 0,
        !is_white_space(x[0]),
    ensures
        trim_end(x).len() > 0,
        trim_end(x)[0] == x[0],
    decreases x.len(),
{
    if is_white_space(x.last()) {
        if x.len() == 1 {
            assert(x.last() == x[0]);
        } else {
            lemma_trim_end_keeps_first(x.drop_last());
        }
    }
}

proof fn lemma_header_names_nothing(head: Seq<Seq<char>>)
    requires
        forall|i: int| 0 <= i < head.len() ==> !is_separator(#[trigger] head[i]),
    ensures
        sevenzip_entries(head) == Seq::<Seq<char>>::empty(),
        !seen_separator(head),
    decreases head.len(),
{
    if head.len() > 0 {
        let d = head.drop_last();
        assert forall|i: int| 0 <= i < d.len() implies !is_separator(#[trigger] d[i]) by {
            assert(d[i] == head[i]);
        }
        lemma_header_names_nothing(d);
        assert(!is_separator(head[head.len() - 1]));
        if seen_separator(head) {
            let j = choose|j: int| 0 <= j < head.len() && is_separator(#[trigger] head[j]);
            assert(!is_separator(head[j]));
        }
    }
}

/// A `7z l -slt` listing names the paths of the "Path = " lines that follow
/// its first separator line, in order and all of them; whatever comes
/// before the separator (the archive's own "Path = " line among it) names
/// nothing.
pub proof fn lemma_sevenzip_paths_after_separator(
    head: Seq<Seq<char>>,
    sep: Seq<char>,
    paths: Seq<Seq<char>>,
)
    requires
        forall|i: int| 0 <= i < head.len() ==> trim(#[trigger] head[i]) != "----------"@,
        trim(sep) == "----------"@,
    ensures
        sevenzip_entries(head.push(sep) + paths.map_values(|p: Seq<char>| "Path = "@ + p)) == paths,
    decreases paths.len(),
{
    reveal_strlit("----------");
    reveal_strlit("Path = ");
    assert(separator_line() =~= "----------"@);
    assert(path_key() =~= "Path = "@);
    let f = |p: Seq<char>| "Path = "@ + p;
    let lines = head.push(sep) + paths.map_values(f);
    if paths.len() == 0 {
        assert(lines =~= head.push(sep));
        lemma_header_names_nothing(head);
        assert(lines.drop_last() =~= head);
        assert(is_separator(lines.last()));
    } else {
        let q = paths.drop_last();
        let p = paths.last();
        lemma_sevenzip_paths_after_separator(head, sep, q);
        assert(lines.drop_last() =~= head.push(sep) + q.map_values(f));
        let last = lines.last();
        assert(last == "Path = "@ + p);
        assert(last[0] == 'P');
        lemma_trim_keeps_first(last);
        assert(!is_separator(last));
        assert(names_path(last)) by {
            assert(last.take(7) =~= path_key());
        }
        assert(last.skip(7) =~= p);
        let before = lines.drop_last();
        assert(before[head.len() as int] == sep);
        assert(is_separator(before[head.len() as int]));
        assert(seen_separator(before));
        assert(q.push(p) =~= paths);
    }
}

fn separator(line: &[char]) -> (r: bool)
    ensures
        r == is_separator(line@),
{
    let (a, b) = trim_bounds(line);
    let trimmed = slice_chars(line, a, b);
    let sep: [char; 10] = ['-', '-', '-', '-', '-', '-', '-', '-', '-', '-'];
    proof {
        assert(sep@ =~= separator_line());
    }
    chars_equal(&trimmed, &sep)
}

fn opens_with_path_key(line: &[char]) -> (r: bool)
    ensures
        r == names_path(line@),
{
    if line.len() < 7 {
        return false;
    }
    let head = slice_chars(line, 0, 7);
    let key: [char; 7] = ['P', 'a', 't', 'h', ' ', '=', ' '];
    proof {
        assert(key@ =~= path_key());
        assert(line@.subrange(0, 7) =~= line@.take(7));
    }
    chars_equal(&head, &key)
}

/// The entry paths of a `7z l -slt` listing, given its lines.
pub fn sevenzip_listing(lines: &Vec<String>) -> (r: Vec<String>)
    ensures
        r.deep_view() == sevenzip_entries(lines.deep_view()),
{
    let ghost all = lines.deep_view();
    let mut out: Vec<String> = Vec::new();
    let mut past_separator = false;
    let mut i: usize = 0;
    proof {
        assert(all.take(0) =~= Seq::<Seq<char>>::empty());
        assert(out.deep_view() =~= Seq::<Seq<char>>::empty());
    }
    while i < lines.len()
        invariant
            all == lines.deep_view(),
            i <= lines@.len(),
            past_separator == seen_separator(all.take(i as int)),
            out.deep_view() == sevenzip_entries(all.take(i as int)),
        decreases lines@.len() - i,
    {
        let line = chars_of(lines[i].as_str());
        proof {
            assert(all.take(i + 1).drop_last() =~= all.take(i as int));
            assert(all.take(i + 1).last() == line@);
            assert(all[i as int] == line@);
        }
        let sep = separator(&line);
        if sep {
            proof {
                assert(all.take(i + 1)[i as int] == line@);
            }
        } else {
            if past_separator && opens_with_path_key(&line) {
                let rest = slice_chars(&line, 7, line.len());
                let ghost before = out.deep_view();
                out.push(string_of(&rest));
                proof {
                    assert(line@.subrange(7, line@.len() as int) =~= line@.skip(7));
                    assert(out.deep_view() =~= before.push(line@.skip(7)));
                }
            }
        }
        proof {
            if seen_separator(all.take(i + 1)) && !sep {
                let j = choose|j: int| 0 <= j < i + 1 && is_separator(#[trigger] all.take(i + 1)[j]);
                assert(all.take(i as int)[j] == all.take(i + 1)[j]);
            }
            if past_separator {
                let j = choose|j: int| 0 <= j < i && is_separator(#[trigger] all.take(i as int)[j]);
                assert(all.take(i + 1)[j] == all.take(i as int)[j]);
            }
        }
        past_separator = past_separator || sep;
        i = i + 1;
    }
    proof {
        assert(all.take(all.len() as int) =~= all);
    }
    out
}

/// The index of the first slash of `entry` at or after `i`, or its length.
pub open spec fn slash_from(entry: Seq<char>, i: int) -> int
    decreases entry.len() - i,
{
    if i < 0 || i >= entry.len() {
        entry.len() as int
    } else if entry[i] == '/' {
        i
    } else {
        slash_from(entry, i + 1)
    }
}

/// The first component of an entry path: what precedes its first slash.
pub open spec fn first_component(entry: Seq<char>) -> Seq<char> {
    entry.take(slash_from(entry, 0))
}

/// The directory that every entry of a listing lies in, when there is one
/// and at least one entry is nested: `None` for an empty listing, for an
/// entry whose first component is empty, and for a listing that is flat or
/// has two roots.
pub open spec fn root_of(entries: Seq<Seq<char>>) -> Option<Seq<char>> {
    if entries.len() == 0 {
        None
    } else {
        let root = first_component(entries[0]);
        if root.len() > 0
            && (forall|i: int| 0 <= i < entries.len() ==> first_component(#[trigger] entries[i]) == root)
            && (exists|i: int| 0 <= i < entries.len() && #[trigger] entries[i].contains('/')) {
            Some(root)
        } else {
            None
        }
    }
}

pub(crate) proof fn lemma_slash_from_unique(x: Seq<char>, i: int, k: int)
    requires
        0 <= i <= k <= x.len(),
        forall|j: int| i <= j < k ==> x[j] != '/',
        k == x.len() || x[k] == '/',
    ensures
        slash_from(x, i) == k,
    decreases k - i,
{
    if i < k {
        lemma_slash_from_unique(x, i + 1, k);
    }
}

/// `entry` lies in the directory `r`: it is `r` itself, or `r`, a slash
/// and more.
pub open spec fn lies_in(entry: Seq<char>, r: Seq<char>) -> bool {
    entry == r || (entry.len() > r.len() && entry.take(r.len() as int) == r && entry[r.len() as int] == '/')
}

proof fn lemma_first_component_of_member(e: Seq<char>, r: Seq<char>)
    requires
        r.len() > 0,
        forall|j: int| 0 <= j < r.len() ==> r[j] != '/',
        lies_in(e, r),
    ensures
        first_component(e) == r,
{
    if e == r {
        lemma_slash_from_unique(e, 0, e.len() as int);
        assert(e.take(e.len() as int) =~= e);
    } else {
        assert forall|j: int| 0 <= j < r.len() implies e[j] != '/' by {
            assert(e.take(r.len() as int)[j] == e[j]);
        }
        lemma_slash_from_unique(e, 0, r.len() as int);
    }
}

proof fn lemma_member_of_first_component(e: Seq<char>)
    requires
        first_component(e).len() > 0,
    ensures
        lies_in(e, first_component(e)),
        forall|j: int| 0 <= j < first_component(e).len() ==> first_component(e)[j] != '/',
{
    lemma_slash_from_bounds(e, 0);
    let k = slash_from(e, 0);
    if k == e.len() {
        assert(e.take(k) =~= e);
    }
}

/// A listing has the common root `r` exactly when `r` is a non-empty name
/// without slashes, every entry is `r` itself or lies below it, and some
/// entry lies below it. In particular a folder and the one file in it,
/// `["proj", "proj/notes.txt"]`, has the root "proj", whatever the number
/// of entries.
pub proof fn lemma_root_exactly(entries: Seq<Seq<char>>, r: Seq<char>)
    ensures
        root_of(entries) == Some(r) <==> {
            &&& r.len() > 0
            &&& forall|j: int| 0 <= j < r.len() ==> r[j] != '/'
            &&& forall|i: int| 0 <= i < entries.len() ==> lies_in(#[trigger] entries[i], r)
            &&& exists|i: int| 0 <= i < entries.len() && #[trigger] entries[i].contains('/')
        },
{
    let right = {
        &&& r.len() > 0
        &&& forall|j: int| 0 <= j < r.len() ==> r[j] != '/'
        &&& forall|i: int| 0 <= i < entries.len() ==> lies_in(#[trigger] entries[i], r)
        &&& exists|i: int| 0 <= i < entries.len() && #[trigger] entries[i].contains('/')
    };
    if right {
        let n = choose|i: int| 0 <= i < entries.len() && #[trigger] entries[i].contains('/');
        assert(entries.len() > 0);
        assert forall|i: int| 0 <= i < entries.len() implies first_component(#[trigger] entries[i]) == r by {
            lemma_first_component_of_member(entries[i], r);
        }
        assert(first_component(entries[0]) == r);
        assert(entries[n].contains('/'));
    }
    if root_of(entries) == Some(r) {
        assert(first_component(entries[0]) == r);
        lemma_member_of_first_component(entries[0]);
        assert forall|i: int| 0 <= i < entries.len() implies lies_in(#[trigger] entries[i], r) by {
            assert(first_component(entries[i]) == r);
            lemma_member_of_first_component(entries[i]);
        }
    }
}

proof fn lemma_root_carries_over(a: Seq<Seq<char>>, b: Seq<Seq<char>>)
    requires
        a.len() == b.len(),
        forall|x: Seq<char>| a.contains(x) <==> b.contains(x),
        root_of(a) is Some,
    ensures
        root_of(b) == root_of(a),
{
    let r = root_of(a)->0;
    assert(a.contains(b[0]));
    let j0 = choose|j: int| 0 <= j < a.len() && a[j] == b[0];
    assert(first_component(a[j0]) == r);
    assert forall|i: int| 0 <= i < b.len() implies first_component(#[trigger] b[i]) == r by {
        assert(b.contains(b[i]));
        assert(a.contains(b[i]));
        let j = choose|j: int| 0 <= j < a.len() && a[j] == b[i];
        assert(first_component(a[j]) == r);
    }
    let n = choose|n: int| 0 <= n < a.len() && #[trigger] a[n].contains('/');
    assert(a.contains(a[n]));
    assert(b.contains(a[n]));
    let m = choose|m: int| 0 <= m < b.len() && b[m] == a[n];
    assert(b[m].contains('/'));
}

/// The common root does not depend on the order of the listing: two
/// listings with the same entries, each as often, have the same root.
pub proof fn lemma_root_ignores_order(a: Seq<Seq<char>>, b: Seq<Seq<char>>)
    requires
        a.to_multiset() == b.to_multiset(),
    ensures
        root_of(a) == root_of(b),
{
    vstd::seq_lib::to_multiset_len(a);
    vstd::seq_lib::to_multiset_len(b);
    assert forall|x: Seq<char>| a.contains(x) <==> b.contains(x) by {
        vstd::seq_lib::to_multiset_contains(a, x);
        vstd::seq_lib::to_multiset_contains(b, x);
    }
    if root_of(a) is Some {
        lemma_root_carries_over(a, b);
    } else if root_of(b) is Some {
        lemma_root_carries_over(b, a);
    }
}

pub(crate) proof fn lemma_slash_from_bounds(entry: Seq<char>, i: int)
    requires
        0 <= i <= entry.len(),
    ensures
        i <= slash_from(entry, i) <= entry.len(),
        slash_from(entry, i) < entry.len() ==> entry[slash_from(entry, i)] == '/',
        forall|j: int| i <= j < slash_from(entry, i) ==> entry[j] != '/',
    decreases entry.len() - i,
{
    if i < entry.len() && entry[i] != '/' {
        lemma_slash_from_bounds(entry, i + 1);
    }
}

/// The length of the first component of `entry`, and whether `entry` holds
/// a slash.
fn component_end(entry: &[char]) -> (r: (usize, bool))
    ensures
        r.0 == slash_from(entry@, 0),
        r.1 == entry@.contains('/'),
{
    let mut k: usize = 0;
    while k < entry.len() && entry[k] != '/'
        invariant
            k <= entry@.len(),
            slash_from(entry@, 0) == slash_from(entry@, k as int),
            forall|j: int| 0 <= j < k ==> entry@[j] != '/',
        decreases entry@.len() - k,
    {
        k = k + 1;
    }
    let has = k < entry.len();
    proof {
        if has {
            assert(entry@[k as int] == '/');
        }
    }
    (k, has)
}

/// The common root directory of an archive's entries, when every entry lies
/// in it and at least one entry is nested inside it.
pub fn root_entry_name(entries: &Vec<String>) -> (r: Option<String>)
    ensures
        r matches Some(s) ==> root_of(entries.deep_view()) == Some(s@),
        r is None ==> root_of(entries.deep_view()) is None,
{
    let ghost all = entries.deep_view();
    if entries.len() == 0 {
        return None;
    }
    let first = chars_of(entries[0].as_str());
    let (k, _) = component_end(&first);
    proof {
        lemma_slash_from_bounds(first@, 0);
    }
    let root = slice_chars(&first, 0, k);
    proof {
        assert(root@ =~= first_component(all[0]));
    }
    if k == 0 {
        return None;
    }
    let mut all_under_root = true;
    let mut has_nesting = false;
    let mut i: usize = 0;
    while i < entries.len()
        invariant
            all == entries.deep_view(),
            i <= entries@.len(),
            root@ == first_component(all[0]),
            all_under_root == (forall|j: int| 0 <= j < i ==> first_component(#[trigger] all[j]) == root@),
            has_nesting == (exists|j: int| 0 <= j < i && #[trigger] all[j].contains('/')),
        decreases entries@.len() - i,
    {
        let e = chars_of(entries[i].as_str());
        proof {
            assert(all[i as int] == e@);
            lemma_slash_from_bounds(e@, 0);
        }
        let (ek, slash) = component_end(&e);
        let comp = slice_chars(&e, 0, ek);
        proof {
            assert(comp@ =~= first_component(e@));
        }
        let same = chars_equal(&comp, &root);
        proof {
            if !same {
                assert(first_component(all[i as int]) != root@);
            }
            if slash {
                assert(all[i as int].contains('/'));
            }
        }
        all_under_root = all_under_root && same;
        has_nesting = has_nesting || slash;
        i = i + 1;
    }
    if all_under_root && has_nesting {
        Some(string_of(&root))
    } else {
        None
    }
}

} // verus!
