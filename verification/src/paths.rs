use vstd::prelude::*;
use crate::listing::{
    first_component, lemma_slash_from_bounds, lemma_slash_from_unique, root_of, slash_from,
};
use crate::text::{chars_equal, chars_of, decimal, decimal_chars, opt_view, slice_chars, string_of};

verus! {

broadcast use vstd::string::group_string_axioms;

/// `s` ends with `suffix`.
pub open spec fn ends_with(s: Seq<char>, suffix: Seq<char>) -> bool {
    suffix.len() <= s.len() && s.skip(s.len() - suffix.len()) == suffix
}

/// The index of the last dot of `name`, or -1.
pub open spec fn last_dot(name: Seq<char>) -> int
    decreases name.len(),
{
    if name.len() == 0 {
        -1
    } else if name.last() == '.' {
        name.len() - 1
    } else {
        last_dot(name.drop_last())
    }
}

/// The stem of a file name, as `Path::file_stem` gives it: the part before
/// the last dot, or the whole name when it has no dot other than a leading
/// one (and for "..").
pub open spec fn file_stem(name: Seq<char>) -> Seq<char> {
    if name == seq!['.', '.'] || last_dot(name) <= 0 {
        name
    } else {
        name.take(last_dot(name))
    }
}

/// The name an archive file is extracted under: its name without one of the
/// compound tarball extensions, else its stem.
pub open spec fn stem_of_archive(name: Seq<char>) -> Seq<char> {
    if ends_with(name, ".tar.gz"@) {
        name.take(name.len() - ".tar.gz"@.len())
    } else if ends_with(name, ".tar.bz2"@) {
        name.take(name.len() - ".tar.bz2"@.len())
    } else if ends_with(name, ".tar.xz"@) {
        name.take(name.len() - ".tar.xz"@.len())
    } else if ends_with(name, ".tar.zst"@) {
        name.take(name.len() - ".tar.zst"@.len())
    } else {
        file_stem(name)
    }
}

/// The length that remains of `name` once `suffix` is cut off, if it ends
/// with it.
fn cut_suffix(name: &[char], suffix: &str) -> (r: Option<usize>)
    ensures
        r is Some <==> ends_with(name@, suffix@),
        r matches Some(k) ==> k == name@.len() - suffix@.len(),
{
    let suf = chars_of(suffix);
    if suf.len() > name.len() {
        return None;
    }
    let k = name.len() - suf.len();
    let tail = slice_chars(name, k, name.len());
    proof {
        assert(name@.subrange(k as int, name@.len() as int) =~= name@.skip(k as int));
    }
    if chars_equal(&tail, &suf) {
        Some(k)
    } else {
        None
    }
}

fn stem_length(name: &[char]) -> (r: usize)
    ensures
        r <= name@.len(),
        name@.take(r as int) == file_stem(name@),
{
    let n = name.len();
    let mut i: usize = n;
    proof {
        assert(name@.take(n as int) =~= name@);
    }
    while i > 0 && name[i - 1] != '.'
        invariant
            i <= n == name@.len(),
            last_dot(name@) == last_dot(name@.take(i as int)),
        decreases i,
    {
        proof {
            assert(name@.take(i as int).drop_last() =~= name@.take(i - 1));
        }
        i = i - 1;
    }
    proof {
        if i > 0 {
            assert(name@.take(i as int).last() == '.');
        }
    }
    let dot_dot = n == 2 && name[0] == '.' && name[1] == '.';
    proof {
        if name@ == seq!['.', '.'] {
            assert(name@[0] == '.' && name@[1] == '.');
        }
        if dot_dot {
            assert(name@ =~= seq!['.', '.']);
        }
    }
    if dot_dot || i <= 1 {
        n
    } else {
        i - 1
    }
}

/// The name under which an archive whose file name is `file_name` is
/// extracted when its entries share no common root.
pub fn archive_stem(file_name: &str) -> (r: String)
    ensures
        r@ == stem_of_archive(file_name@),
{
    let name = chars_of(file_name);
    let k = if let Some(k) = cut_suffix(&name, ".tar.gz") {
        k
    } else if let Some(k) = cut_suffix(&name, ".tar.bz2") {
        k
    } else if let Some(k) = cut_suffix(&name, ".tar.xz") {
        k
    } else if let Some(k) = cut_suffix(&name, ".tar.zst") {
        k
    } else {
        stem_length(&name)
    };
    proof {
        assert(name@.subrange(0, k as int) =~= name@.take(k as int));
    }
    string_of(&slice_chars(&name, 0, k))
}

proof fn lemma_last_dot_bound(name: Seq<char>)
    ensures
        -1 <= last_dot(name) < name.len(),
    decreases name.len(),
{
    if name.len() > 0 && name.last() != '.' {
        lemma_last_dot_bound(name.drop_last());
    }
}

/// The name an archive is extracted under is a beginning of its file name.
pub proof fn lemma_stem_is_prefix(name: Seq<char>)
    ensures
        stem_of_archive(name).len() <= name.len(),
        stem_of_archive(name) == name.take(stem_of_archive(name).len() as int),
{
    lemma_last_dot_bound(name);
    assert(name.take(name.len() as int) =~= name);
    let s = stem_of_archive(name);
    assert(s =~= name.take(s.len() as int));
}

proof fn lemma_ends_with_concat(n: Seq<char>, suffix: Seq<char>)
    ensures
        ends_with(n + suffix, suffix),
        (n + suffix).take(n.len() as int) == n,
{
    assert((n + suffix).skip(n.len() as int) =~= suffix);
    assert((n + suffix).take(n.len() as int) =~= n);
}

proof fn lemma_not_ends_with(n: Seq<char>, s: Seq<char>, suffix: Seq<char>, j: int)
    requires
        0 <= j < s.len(),
        j < suffix.len(),
        s[s.len() - 1 - j] != suffix[suffix.len() - 1 - j],
    ensures
        !ends_with(n + s, suffix),
{
    let t = n + s;
    if ends_with(t, suffix) {
        assert(t.skip(t.len() - suffix.len())[suffix.len() - 1 - j] == t[t.len() - 1 - j]);
    }
}

/// A compressed tarball is extracted under its name without the compound
/// extension, all of the rest kept: "foo-1.0.tar.gz" gives "foo-1.0", for
/// every name `n` and each of ".tar.gz", ".tar.bz2", ".tar.xz" and
/// ".tar.zst".
pub proof fn lemma_stem_drops_tarball_extension(n: Seq<char>)
    ensures
        stem_of_archive(n + ".tar.gz"@) == n,
        stem_of_archive(n + ".tar.bz2"@) == n,
        stem_of_archive(n + ".tar.xz"@) == n,
        stem_of_archive(n + ".tar.zst"@) == n,
{
    reveal_strlit(".tar.gz");
    reveal_strlit(".tar.bz2");
    reveal_strlit(".tar.xz");
    reveal_strlit(".tar.zst");
    lemma_ends_with_concat(n, ".tar.gz"@);
    lemma_ends_with_concat(n, ".tar.bz2"@);
    lemma_ends_with_concat(n, ".tar.xz"@);
    lemma_ends_with_concat(n, ".tar.zst"@);
    lemma_not_ends_with(n, ".tar.bz2"@, ".tar.gz"@, 0);
    lemma_not_ends_with(n, ".tar.xz"@, ".tar.gz"@, 1);
    lemma_not_ends_with(n, ".tar.xz"@, ".tar.bz2"@, 0);
    lemma_not_ends_with(n, ".tar.zst"@, ".tar.gz"@, 0);
    lemma_not_ends_with(n, ".tar.zst"@, ".tar.bz2"@, 0);
    lemma_not_ends_with(n, ".tar.zst"@, ".tar.xz"@, 0);
}

proof fn lemma_last_dot_after(n: Seq<char>, ext: Seq<char>)
    requires
        !ext.contains('.'),
    ensures
        last_dot(n + seq!['.'] + ext) == n.len(),
    decreases ext.len(),
{
    let name = n + seq!['.'] + ext;
    if ext.len() == 0 {
        assert(name.last() == '.');
    } else {
        assert(name.last() == ext.last());
        assert(ext.last() != '.') by {
            assert(ext[ext.len() - 1] == ext.last());
        }
        assert(!ext.drop_last().contains('.')) by {
            if ext.drop_last().contains('.') {
                let j = choose|j: int| 0 <= j < ext.drop_last().len() && ext.drop_last()[j] == '.';
                assert(ext[j] == '.');
            }
        }
        assert(name.drop_last() =~= n + seq!['.'] + ext.drop_last());
        lemma_last_dot_after(n, ext.drop_last());
    }
}

proof fn lemma_last_dot_none(name: Seq<char>)
    requires
        !name.contains('.'),
    ensures
        last_dot(name) == -1,
    decreases name.len(),
{
    if name.len() > 0 {
        assert(name[name.len() - 1] != '.');
        assert(!name.drop_last().contains('.')) by {
            if name.drop_last().contains('.') {
                let j = choose|j: int| 0 <= j < name.drop_last().len() && name.drop_last()[j] == '.';
                assert(name[j] == '.');
            }
        }
        lemma_last_dot_none(name.drop_last());
    }
}

/// A name ending in a dot and a dot-free extension ends with a suffix of the
/// same shape only when the extensions agree.
proof fn lemma_suffix_split(n: Seq<char>, ext: Seq<char>, pre: Seq<char>, x: Seq<char>)
    requires
        !ext.contains('.'),
        !x.contains('.'),
        ends_with(n + seq!['.'] + ext, pre + seq!['.'] + x),
    ensures
        ext == x,
        ends_with(n, pre),
{
    let name = n + seq!['.'] + ext;
    let suf = pre + seq!['.'] + x;
    let l = name.len() as int;
    let k = suf.len() as int;
    let tail = name.skip(l - k);
    assert(tail == suf);
    if ext.len() < x.len() {
        let i = k - 1 - ext.len();
        assert(tail[i] == name[l - 1 - ext.len()]);
        assert(name[l - 1 - ext.len()] == '.');
        assert(suf[i] == x[x.len() - 1 - ext.len()]);
        assert(x.contains('.'));
    } else if ext.len() > x.len() {
        let i = k - 1 - x.len();
        assert(suf[i] == '.');
        assert(tail[i] == name[l - 1 - x.len()]);
        assert(name[l - 1 - x.len()] == ext[ext.len() - 1 - x.len()]);
        assert(ext.contains('.'));
    } else {
        assert forall|j: int| 0 <= j < ext.len() implies ext[j] == x[j] by {
            assert(tail[k - ext.len() + j] == name[l - ext.len() + j]);
            assert(suf[k - ext.len() + j] == x[j]);
        }
        assert(ext =~= x);
        assert forall|j: int| 0 <= j < pre.len() implies n.skip(n.len() - pre.len())[j] == pre[j] by {
            assert(tail[j] == name[l - k + j]);
            assert(suf[j] == pre[j]);
        }
        assert(n.skip(n.len() - pre.len()) =~= pre);
    }
}

/// Any other archive is extracted under its name without its last
/// extension: `n` for a name `n.ext` whose extension holds no dot (a name
/// with no dot, or only a leading one, is kept whole), unless the name ends
/// in one of the compound tarball extensions.
pub proof fn lemma_stem_drops_last_extension(n: Seq<char>, ext: Seq<char>)
    requires
        n.len() > 0,
        !ext.contains('.'),
        !(n == "."@ && ext.len() == 0),
        !(ends_with(n, ".tar"@) && (ext == "gz"@ || ext == "bz2"@ || ext == "xz"@ || ext == "zst"@)),
    ensures
        stem_of_archive(n + "."@ + ext) == n,
        !n.contains('.') ==> stem_of_archive(n) == n,
        !n.contains('.') ==> stem_of_archive("."@ + n) == "."@ + n,
{
    reveal_strlit(".");
    reveal_strlit(".tar");
    reveal_strlit(".tar.gz");
    reveal_strlit(".tar.bz2");
    reveal_strlit(".tar.xz");
    reveal_strlit(".tar.zst");
    reveal_strlit("gz");
    reveal_strlit("bz2");
    reveal_strlit("xz");
    reveal_strlit("zst");
    assert("."@ =~= seq!['.']);
    let name = n + "."@ + ext;
    assert(".tar.gz"@ =~= ".tar"@ + seq!['.'] + "gz"@);
    assert(".tar.bz2"@ =~= ".tar"@ + seq!['.'] + "bz2"@);
    assert(".tar.xz"@ =~= ".tar"@ + seq!['.'] + "xz"@);
    assert(".tar.zst"@ =~= ".tar"@ + seq!['.'] + "zst"@);
    assert(!"gz"@.contains('.')) by { assert("gz"@[0] != '.' && "gz"@[1] != '.'); }
    assert(!"bz2"@.contains('.')) by { assert("bz2"@[0] != '.' && "bz2"@[1] != '.' && "bz2"@[2] != '.'); }
    assert(!"xz"@.contains('.')) by { assert("xz"@[0] != '.' && "xz"@[1] != '.'); }
    assert(!"zst"@.contains('.')) by { assert("zst"@[0] != '.' && "zst"@[1] != '.' && "zst"@[2] != '.'); }
    if ends_with(name, ".tar.gz"@) {
        lemma_suffix_split(n, ext, ".tar"@, "gz"@);
    }
    if ends_with(name, ".tar.bz2"@) {
        lemma_suffix_split(n, ext, ".tar"@, "bz2"@);
    }
    if ends_with(name, ".tar.xz"@) {
        lemma_suffix_split(n, ext, ".tar"@, "xz"@);
    }
    if ends_with(name, ".tar.zst"@) {
        lemma_suffix_split(n, ext, ".tar"@, "zst"@);
    }
    lemma_last_dot_after(n, ext);
    if name == seq!['.', '.'] {
        assert(n.len() == 1 && ext.len() == 0);
        assert(n =~= "."@);
    }
    assert(name.take(n.len() as int) =~= n);
    if !n.contains('.') {
        lemma_last_dot_none(n);
        // Tarball suffixes hold dots, so a dot-free name has none of them.
        assert(!ends_with(n, ".tar.gz"@)) by {
            if ends_with(n, ".tar.gz"@) {
                assert(n.skip(n.len() - 7)[0] == n[n.len() - 7]);
            }
        }
        assert(!ends_with(n, ".tar.bz2"@)) by {
            if ends_with(n, ".tar.bz2"@) {
                assert(n.skip(n.len() - 8)[0] == n[n.len() - 8]);
            }
        }
        assert(!ends_with(n, ".tar.xz"@)) by {
            if ends_with(n, ".tar.xz"@) {
                assert(n.skip(n.len() - 7)[0] == n[n.len() - 7]);
            }
        }
        assert(!ends_with(n, ".tar.zst"@)) by {
            if ends_with(n, ".tar.zst"@) {
                assert(n.skip(n.len() - 8)[0] == n[n.len() - 8]);
            }
        }
        if n == seq!['.', '.'] {
            assert(n[0] == '.');
        }
        let d = "."@ + n;
        // The last dot of ".n" is its leading one.
        assert(last_dot(d) == 0) by {
            lemma_last_dot_of_leading(n);
        }
        assert(!ends_with(d, ".tar.gz"@)) by {
            if ends_with(d, ".tar.gz"@) {
                assert(d.skip(d.len() - 7)[4] == d[d.len() - 3]);
            }
        }
        assert(!ends_with(d, ".tar.bz2"@)) by {
            if ends_with(d, ".tar.bz2"@) {
                assert(d.skip(d.len() - 8)[4] == d[d.len() - 4]);
            }
        }
        assert(!ends_with(d, ".tar.xz"@)) by {
            if ends_with(d, ".tar.xz"@) {
                assert(d.skip(d.len() - 7)[4] == d[d.len() - 3]);
            }
        }
        assert(!ends_with(d, ".tar.zst"@)) by {
            if ends_with(d, ".tar.zst"@) {
                assert(d.skip(d.len() - 8)[4] == d[d.len() - 4]);
            }
        }
    }
}

proof fn lemma_last_dot_of_leading(n: Seq<char>)
    requires
        !n.contains('.'),
    ensures
        last_dot(seq!['.'] + n) == 0,
    decreases n.len(),
{
    let d = seq!['.'] + n;
    if n.len() == 0 {
        assert(d.last() == '.');
    } else {
        assert(d.last() == n[n.len() - 1]);
        assert(!n.drop_last().contains('.')) by {
            if n.drop_last().contains('.') {
                let j = choose|j: int| 0 <= j < n.drop_last().len() && n.drop_last()[j] == '.';
                assert(n[j] == '.');
            }
        }
        assert(d.drop_last() =~= seq!['.'] + n.drop_last());
        lemma_last_dot_of_leading(n.drop_last());
    }
}

/// `dir` joined with `name`, as `Path::join` does it on Unix: an absolute
/// `name` replaces `dir`; otherwise a slash separates them unless `dir` is
/// empty or already ends with one.
pub open spec fn join(dir: Seq<char>, name: Seq<char>) -> Seq<char> {
    if name.len() > 0 && name[0] == '/' {
        name
    } else if dir.len() == 0 || dir.last() == '/' {
        dir + name
    } else {
        dir + seq!['/'] + name
    }
}

/// `dir` joined with `name`.
pub fn join_path(dir: &str, name: &str) -> (r: String)
    ensures
        r@ == join(dir@, name@),
{
    let n = chars_of(name);
    if n.len() > 0 && n[0] == '/' {
        return String::from_str(name);
    }
    let d = chars_of(dir);
    let mut r = String::from_str(dir);
    if !(d.len() == 0 || d[d.len() - 1] == '/') {
        r.append("/");
        proof {
            reveal_strlit("/");
            assert("/"@ =~= seq!['/']);
        }
    }
    r.append(name);
    r
}

/// Why no destination could be chosen.
#[derive(Clone, Copy, Debug, PartialEq, Eq, Structural)]
pub enum DestError {
    /// The destination is beside the archive, and the archive's path has no
    /// directory part.
    NoParent,
    /// The destination is the current directory, and it could not be read.
    NoCurrentDir,
}

/// The directory that an archive is extracted into: the current directory
/// `cwd` with `here`; else the explicit output directory; else a directory
/// beside the archive (in `parent`), named after its common root when it
/// has one and after the archive otherwise.
pub open spec fn destination(
    root: Option<Seq<char>>,
    parent: Option<Seq<char>>,
    file_name: Seq<char>,
    output: Option<Seq<char>>,
    here: bool,
    cwd: Option<Seq<char>>,
) -> Result<Seq<char>, DestError> {
    if here {
        match cwd {
            Some(c) => Ok(c),
            None => Err(DestError::NoCurrentDir),
        }
    } else if output is Some {
        Ok(output->0)
    } else {
        match parent {
            Some(p) => Ok(
                join(
                    p,
                    match root {
                        Some(r) => r,
                        None => stem_of_archive(file_name),
                    },
                ),
            ),
            None => Err(DestError::NoParent),
        }
    }
}

/// The extraction directory for the archive whose directory is `parent`
/// and whose file name is `file_name`; `cwd` is the current directory, when
/// it could be read.
pub fn resolve_dest(
    root: &Option<String>,
    parent: &Option<String>,
    file_name: &str,
    output: Option<String>,
    here: bool,
    cwd: &Option<String>,
) -> (r: Result<String, DestError>)
    ensures
        r matches Ok(d) ==> destination(opt_view(*root), opt_view(*parent), file_name@, opt_view(output), here, opt_view(*cwd)) == Ok::<Seq<char>, DestError>(d@),
        r matches Err(e) ==> destination(opt_view(*root), opt_view(*parent), file_name@, opt_view(output), here, opt_view(*cwd)) == Err::<Seq<char>, DestError>(e),
{
    if here {
        return match cwd {
            Some(c) => Ok(String::from_str(c.as_str())),
            None => Err(DestError::NoCurrentDir),
        };
    }
    if let Some(explicit) = output {
        return Ok(explicit);
    }
    match parent {
        Some(p) => {
            let name = match root {
                Some(r) => String::from_str(r.as_str()),
                None => archive_stem(file_name),
            };
            Ok(join_path(p.as_str(), name.as_str()))
        },
        None => Err(DestError::NoParent),
    }
}

/// The name of the scratch directory that an archive is first extracted
/// into when its root is dropped by moving: ".unpack-tmp-", the name of
/// the destination, "-" and the process id.
pub fn temp_dir_name(dest_name: &str, pid: u32) -> (r: String)
    ensures
        r@ == ".unpack-tmp-"@ + dest_name@ + "-"@ + decimal(pid as nat),
{
    let mut r = String::from_str(".unpack-tmp-");
    r.append(dest_name);
    r.append("-");
    let digits = string_of(&decimal_chars(pid as u64));
    r.append(digits.as_str());
    r
}

/// The directory whose contents are moved into the destination after an
/// extraction into the scratch directory `tmp`: the single entry at its
/// top when there is exactly one and it is a directory, else `tmp` itself.
pub fn source_dir(tmp: &str, top_entries: &Vec<String>, first_is_dir: bool) -> (r: String)
    ensures
        r@ == (if top_entries@.len() == 1 && first_is_dir {
            top_entries@[0]@
        } else {
            tmp@
        }),
{
    if top_entries.len() == 1 && first_is_dir {
        String::from_str(top_entries[0].as_str())
    } else {
        String::from_str(tmp)
    }
}

/// The components of a path: the names between its slashes, empty ones
/// (from a leading, trailing or doubled slash) left out. Two paths with the
/// same components name the same place.
pub open spec fn components(path: Seq<char>) -> Seq<Seq<char>>
    decreases path.len(),
{
    let k = slash_from(path, 0);
    let head = path.take(k);
    let tail = if 0 <= k < path.len() {
        components(path.skip(k + 1))
    } else {
        seq![]
    };
    if head.len() > 0 {
        seq![head] + tail
    } else {
        tail
    }
}

proof fn lemma_components_concat(a: Seq<char>, b: Seq<char>)
    ensures
        components(a + seq!['/'] + b) == components(a) + components(b),
    decreases a.len(),
{
    let s = a + seq!['/'] + b;
    lemma_slash_from_bounds(a, 0);
    let k = slash_from(a, 0);
    if k < a.len() {
        lemma_slash_from_unique(s, 0, k);
        assert(s.take(k) =~= a.take(k));
        assert(s.skip(k + 1) =~= a.skip(k + 1) + seq!['/'] + b);
        lemma_components_concat(a.skip(k + 1), b);
        if a.take(k).len() > 0 {
            assert(components(s) =~= seq![a.take(k)] + (components(a.skip(k + 1)) + components(b)));
            assert(components(a) =~= seq![a.take(k)] + components(a.skip(k + 1)));
        } else {
            assert(components(s) == components(a.skip(k + 1)) + components(b));
        }
        assert(components(s) =~= components(a) + components(b));
    } else {
        lemma_slash_from_unique(s, 0, a.len() as int);
        assert(s.take(a.len() as int) =~= a);
        assert(s.skip(a.len() + 1int) =~= b);
        assert(a.take(k) =~= a);
        assert(components(a) =~= if a.len() > 0 { seq![a] } else { seq![] });
        assert(components(s) =~= components(a) + components(b));
    }
}

proof fn lemma_components_empty()
    ensures
        components(Seq::<char>::empty()) == Seq::<Seq<char>>::empty(),
{
    let e = Seq::<char>::empty();
    assert(slash_from(e, 0) == 0);
    assert(e.take(0) =~= e);
}

/// Joining a relative name adds its components to those of the directory.
proof fn lemma_components_join(dir: Seq<char>, name: Seq<char>)
    requires
        !(name.len() > 0 && name[0] == '/'),
    ensures
        components(join(dir, name)) == components(dir) + components(name),
{
    lemma_components_empty();
    if dir.len() == 0 {
        assert(dir + name =~= name);
        assert(components(dir) + components(name) =~= components(name));
    } else if dir.last() == '/' {
        let d = dir.drop_last();
        assert(dir =~= d + seq!['/'] + Seq::<char>::empty());
        lemma_components_concat(d, Seq::<char>::empty());
        assert(components(dir) =~= components(d));
        assert(dir + name =~= d + seq!['/'] + name);
        lemma_components_concat(d, name);
    } else {
        lemma_components_concat(dir, name);
    }
}

/// "Consistent flattening": when the entries of an archive share the common
/// root `r`, the archive is extracted with its root dropped into the
/// directory chosen beside it, and every entry, whatever its path, lands
/// where the same path would land when extracted into the archive's own
/// directory: the directory `parent/r` holds `r`'s contents, never a
/// second `r`.
pub proof fn lemma_flattening_keeps_place(
    entries: Seq<Seq<char>>,
    parent: Seq<char>,
    file_name: Seq<char>,
    cwd: Option<Seq<char>>,
    i: int,
)
    requires
        root_of(entries) is Some,
        0 <= i < entries.len(),
    ensures
        ({
            let r = root_of(entries)->0;
            let d = destination(Some(r), Some(parent), file_name, None, false, cwd);
            let c = components(entries[i]);
            &&& d is Ok
            &&& c.len() > 0 && c[0] == r
            &&& components(d->Ok_0) + c.drop_first() == components(parent) + c
        }),
{
    let r = root_of(entries)->0;
    let e = entries[i];
    assert(first_component(e) == r);
    lemma_slash_from_bounds(e, 0);
    let k = slash_from(e, 0);
    assert(e.take(k) == r);
    assert(r.len() > 0);
    // The root holds no slash and is its own single component.
    assert forall|j: int| 0 <= j < r.len() implies r[j] != '/' by {
        assert(r[j] == e[j]);
    }
    lemma_slash_from_unique(r, 0, r.len() as int);
    assert(r.take(r.len() as int) =~= r);
    assert(components(r) =~= seq![r]);
    lemma_components_join(parent, r);
    let c = components(e);
    if k < e.len() {
        assert(c =~= seq![r] + components(e.skip(k + 1)));
    } else {
        assert(c =~= seq![r]);
    }
    assert(c.drop_first() =~= c.subrange(1, c.len() as int));
    assert(components(parent) + seq![r] + c.drop_first() =~= components(parent) + c);
}

} // verus!
