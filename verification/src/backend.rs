use vstd::prelude::*;
use crate::format::Format;
use crate::listing::{sevenzip_entries, sevenzip_listing};
use crate::text::{chars_of, slice_chars, string_of, trim_end_char, trimmed_end};

verus! {

broadcast use vstd::string::group_string_axioms;

/// An extraction tool, described by the command lines it is run with and by
/// how its listing is read.
pub trait Extractor {
    /// The name of the program to run.
    spec fn tool_name(&self) -> Seq<char>;

    /// The arguments that make the program list `archive`.
    spec fn list_arguments(&self, archive: Seq<char>) -> Seq<Seq<char>>;

    /// The entry paths named by the lines of the program's listing.
    spec fn entries_of(&self, lines: Seq<Seq<char>>) -> Seq<Seq<char>>;

    /// The arguments that make the program extract `archive` into `target`;
    /// `strip_root` says that the archive's common root is being dropped.
    spec fn extract_arguments(
        &self,
        archive: Seq<char>,
        target: Seq<char>,
        strip_root: bool,
    ) -> Seq<Seq<char>>;

    /// The program drops a common root directory itself; otherwise the
    /// archive is extracted into a scratch directory whose single root is
    /// then moved into place.
    spec fn drops_root_itself(&self) -> bool;

    fn program(&self) -> (r: String)
        ensures
            r@ == self.tool_name(),
    ;

    fn list_args(&self, archive: &str) -> (r: Vec<String>)
        ensures
            r.deep_view() == self.list_arguments(archive@),
    ;

    /// The entries of the archive, given the lines of the program's listing.
    fn list(&self, lines: &Vec<String>) -> (r: Vec<String>)
        ensures
            r.deep_view() == self.entries_of(lines.deep_view()),
    ;

    /// The arguments for extracting `archive` into `target`.
    fn extract(&self, archive: &str, target: &str, strip_root: bool) -> (r: Vec<String>)
        ensures
            r.deep_view() == self.extract_arguments(archive@, target@, strip_root),
    ;

    fn strips_in_place(&self) -> (r: bool)
        ensures
            r == self.drops_root_itself(),
    ;
}

fn owned(s: &str) -> (r: String)
    ensures
        r@ == s@,
{
    String::from_str(s)
}

fn copy_lines(lines: &Vec<String>) -> (r: Vec<String>)
    ensures
        r.deep_view() == lines.deep_view(),
{
    let mut r: Vec<String> = Vec::new();
    let mut i: usize = 0;
    while i < lines.len()
        invariant
            i <= lines@.len(),
            r.deep_view() == lines.deep_view().take(i as int),
        decreases lines@.len() - i,
    {
        let ghost before = r.deep_view();
        r.push(owned(lines[i].as_str()));
        proof {
            assert(r.deep_view() =~= before.push(lines.deep_view()[i as int]));
            assert(lines.deep_view().take(i + 1) =~= lines.deep_view().take(i as int).push(
                lines.deep_view()[i as int],
            ));
        }
        i = i + 1;
    }
    proof {
        assert(lines.deep_view().take(lines@.len() as int) =~= lines.deep_view());
    }
    r
}

fn args2(a: String, b: String) -> (r: Vec<String>)
    ensures
        r.deep_view() == seq![a@, b@],
{
    let mut r: Vec<String> = Vec::new();
    r.push(a);
    r.push(b);
    proof {
        assert(r.deep_view() =~= seq![a@, b@]);
    }
    r
}

fn args3(a: String, b: String, c: String) -> (r: Vec<String>)
    ensures
        r.deep_view() == seq![a@, b@, c@],
{
    let mut r: Vec<String> = Vec::new();
    r.push(a);
    r.push(b);
    r.push(c);
    proof {
        assert(r.deep_view() =~= seq![a@, b@, c@]);
    }
    r
}

fn args4(a: String, b: String, c: String, d: String) -> (r: Vec<String>)
    ensures
        r.deep_view() == seq![a@, b@, c@, d@],
{
    let mut r: Vec<String> = Vec::new();
    r.push(a);
    r.push(b);
    r.push(c);
    r.push(d);
    proof {
        assert(r.deep_view() =~= seq![a@, b@, c@, d@]);
    }
    r
}

/// GNU tar; also extracts gzip, bzip2 and xz compressed tarballs.
pub struct TarBackend;

impl Extractor for TarBackend {
    open spec fn tool_name(&self) -> Seq<char> {
        "tar"@
    }

    open spec fn list_arguments(&self, archive: Seq<char>) -> Seq<Seq<char>> {
        seq!["-tf"@, archive]
    }

    open spec fn entries_of(&self, lines: Seq<Seq<char>>) -> Seq<Seq<char>> {
        lines
    }

    open spec fn extract_arguments(
        &self,
        archive: Seq<char>,
        target: Seq<char>,
        strip_root: bool,
    ) -> Seq<Seq<char>> {
        if strip_root {
            seq!["-xf"@, archive, "-C"@, target, "--strip-components=1"@]
        } else {
            seq!["-xf"@, archive, "-C"@, target]
        }
    }

    open spec fn drops_root_itself(&self) -> bool {
        true
    }

    fn program(&self) -> (r: String) {
        owned("tar")
    }

    fn list_args(&self, archive: &str) -> (r: Vec<String>) {
        args2(owned("-tf"), owned(archive))
    }

    fn list(&self, lines: &Vec<String>) -> (r: Vec<String>) {
        copy_lines(lines)
    }

    fn extract(&self, archive: &str, target: &str, strip_root: bool) -> (r: Vec<String>) {
        let mut args = args4(owned("-xf"), owned(archive), owned("-C"), owned(target));
        if strip_root {
            let ghost before = args.deep_view();
            args.push(owned("--strip-components=1"));
            proof {
                assert(args.deep_view() =~= before.push("--strip-components=1"@));
            }
        }
        args
    }

    fn strips_in_place(&self) -> (r: bool) {
        true
    }
}

/// Info-ZIP's `unzip`.
pub struct ZipBackend;

impl Extractor for ZipBackend {
    open spec fn tool_name(&self) -> Seq<char> {
        "unzip"@
    }

    open spec fn list_arguments(&self, archive: Seq<char>) -> Seq<Seq<char>> {
        seq!["-Z1"@, archive]
    }

    open spec fn entries_of(&self, lines: Seq<Seq<char>>) -> Seq<Seq<char>> {
        lines
    }

    open spec fn extract_arguments(
        &self,
        archive: Seq<char>,
        target: Seq<char>,
        strip_root: bool,
    ) -> Seq<Seq<char>> {
        seq!["-q"@, archive, "-d"@, target]
    }

    open spec fn drops_root_itself(&self) -> bool {
        false
    }

    fn program(&self) -> (r: String) {
        owned("unzip")
    }

    fn list_args(&self, archive: &str) -> (r: Vec<String>) {
        args2(owned("-Z1"), owned(archive))
    }

    fn list(&self, lines: &Vec<String>) -> (r: Vec<String>) {
        copy_lines(lines)
    }

    fn extract(&self, archive: &str, target: &str, strip_root: bool) -> (r: Vec<String>) {
        args4(owned("-q"), owned(archive), owned("-d"), owned(target))
    }

    fn strips_in_place(&self) -> (r: bool) {
        false
    }
}

/// The `7z` program of p7zip / 7-Zip.
pub struct SevenZipBackend;

impl Extractor for SevenZipBackend {
    open spec fn tool_name(&self) -> Seq<char> {
        "7z"@
    }

    open spec fn list_arguments(&self, archive: Seq<char>) -> Seq<Seq<char>> {
        seq!["l"@, "-slt"@, archive]
    }

    open spec fn entries_of(&self, lines: Seq<Seq<char>>) -> Seq<Seq<char>> {
        sevenzip_entries(lines)
    }

    open spec fn extract_arguments(
        &self,
        archive: Seq<char>,
        target: Seq<char>,
        strip_root: bool,
    ) -> Seq<Seq<char>> {
        seq!["x"@, "-y"@, "-o"@ + target, archive]
    }

    open spec fn drops_root_itself(&self) -> bool {
        false
    }

    fn program(&self) -> (r: String) {
        owned("7z")
    }

    fn list_args(&self, archive: &str) -> (r: Vec<String>) {
        args3(owned("l"), owned("-slt"), owned(archive))
    }

    fn list(&self, lines: &Vec<String>) -> (r: Vec<String>) {
        sevenzip_listing(lines)
    }

    fn extract(&self, archive: &str, target: &str, strip_root: bool) -> (r: Vec<String>) {
        let mut out_dir = owned("-o");
        out_dir.append(target);
        args4(owned("x"), owned("-y"), out_dir, owned(archive))
    }

    fn strips_in_place(&self) -> (r: bool) {
        false
    }
}

/// RARLAB's `unrar`.
pub struct RarBackend;

impl Extractor for RarBackend {
    open spec fn tool_name(&self) -> Seq<char> {
        "unrar"@
    }

    open spec fn list_arguments(&self, archive: Seq<char>) -> Seq<Seq<char>> {
        seq!["lb"@, "-y"@, archive]
    }

    open spec fn entries_of(&self, lines: Seq<Seq<char>>) -> Seq<Seq<char>> {
        lines
    }

    /// The target directory is passed with one trailing slash; when the root
    /// is not being dropped, slashes it already ends with are removed first.
    open spec fn extract_arguments(
        &self,
        archive: Seq<char>,
        target: Seq<char>,
        strip_root: bool,
    ) -> Seq<Seq<char>> {
        let dir = if strip_root {
            target
        } else {
            trim_end_char(target, '/')
        };
        seq!["x"@, "-y"@, archive, dir + "/"@]
    }

    open spec fn drops_root_itself(&self) -> bool {
        false
    }

    fn program(&self) -> (r: String) {
        owned("unrar")
    }

    fn list_args(&self, archive: &str) -> (r: Vec<String>) {
        args3(owned("lb"), owned("-y"), owned(archive))
    }

    fn list(&self, lines: &Vec<String>) -> (r: Vec<String>) {
        copy_lines(lines)
    }

    fn extract(&self, archive: &str, target: &str, strip_root: bool) -> (r: Vec<String>) {
        let mut dir = if strip_root {
            owned(target)
        } else {
            let t = chars_of(target);
            let k = trimmed_end(&t, t.len(), '/');
            proof {
                assert(t@.take(t@.len() as int) =~= t@);
                assert(t@.subrange(0, k as int) =~= t@.take(k as int));
            }
            string_of(&slice_chars(&t, 0, k))
        };
        dir.append("/");
        args4(owned("x"), owned("-y"), owned(archive), dir)
    }

    fn strips_in_place(&self) -> (r: bool) {
        false
    }
}

/// One of the four extraction backends.
pub enum Backend {
    Tar(TarBackend),
    Zip(ZipBackend),
    SevenZip(SevenZipBackend),
    Rar(RarBackend),
}

impl Backend {
    /// The program that has to be found on `PATH` before this backend is
    /// used, for the tools that are not commonly installed.
    pub open spec fn checked_tool(&self) -> Option<Seq<char>> {
        match self {
            Backend::SevenZip(_) => Some("7z"@),
            Backend::Rar(_) => Some("unrar"@),
            _ => None,
        }
    }

    pub fn tool_to_check(&self) -> (r: Option<String>)
        ensures
            r matches Some(s) ==> self.checked_tool() == Some(s@),
            r is None ==> self.checked_tool() is None,
    {
        match self {
            Backend::SevenZip(_) => Some(owned("7z")),
            Backend::Rar(_) => Some(owned("unrar")),
            _ => None,
        }
    }
}

impl Extractor for Backend {
    open spec fn tool_name(&self) -> Seq<char> {
        match self {
            Backend::Tar(b) => b.tool_name(),
            Backend::Zip(b) => b.tool_name(),
            Backend::SevenZip(b) => b.tool_name(),
            Backend::Rar(b) => b.tool_name(),
        }
    }

    open spec fn list_arguments(&self, archive: Seq<char>) -> Seq<Seq<char>> {
        match self {
            Backend::Tar(b) => b.list_arguments(archive),
            Backend::Zip(b) => b.list_arguments(archive),
            Backend::SevenZip(b) => b.list_arguments(archive),
            Backend::Rar(b) => b.list_arguments(archive),
        }
    }

    open spec fn entries_of(&self, lines: Seq<Seq<char>>) -> Seq<Seq<char>> {
        match self {
            Backend::Tar(b) => b.entries_of(lines),
            Backend::Zip(b) => b.entries_of(lines),
            Backend::SevenZip(b) => b.entries_of(lines),
            Backend::Rar(b) => b.entries_of(lines),
        }
    }

    open spec fn extract_arguments(
        &self,
        archive: Seq<char>,
        target: Seq<char>,
        strip_root: bool,
    ) -> Seq<Seq<char>> {
        match self {
            Backend::Tar(b) => b.extract_arguments(archive, target, strip_root),
            Backend::Zip(b) => b.extract_arguments(archive, target, strip_root),
            Backend::SevenZip(b) => b.extract_arguments(archive, target, strip_root),
            Backend::Rar(b) => b.extract_arguments(archive, target, strip_root),
        }
    }

    open spec fn drops_root_itself(&self) -> bool {
        match self {
            Backend::Tar(b) => b.drops_root_itself(),
            Backend::Zip(b) => b.drops_root_itself(),
            Backend::SevenZip(b) => b.drops_root_itself(),
            Backend::Rar(b) => b.drops_root_itself(),
        }
    }

    fn program(&self) -> (r: String) {
        match self {
            Backend::Tar(b) => b.program(),
            Backend::Zip(b) => b.program(),
            Backend::SevenZip(b) => b.program(),
            Backend::Rar(b) => b.program(),
        }
    }

    fn list_args(&self, archive: &str) -> (r: Vec<String>) {
        match self {
            Backend::Tar(b) => b.list_args(archive),
            Backend::Zip(b) => b.list_args(archive),
            Backend::SevenZip(b) => b.list_args(archive),
            Backend::Rar(b) => b.list_args(archive),
        }
    }

    fn list(&self, lines: &Vec<String>) -> (r: Vec<String>) {
        match self {
            Backend::Tar(b) => b.list(lines),
            Backend::Zip(b) => b.list(lines),
            Backend::SevenZip(b) => b.list(lines),
            Backend::Rar(b) => b.list(lines),
        }
    }

    fn extract(&self, archive: &str, target: &str, strip_root: bool) -> (r: Vec<String>) {
        match self {
            Backend::Tar(b) => b.extract(archive, target, strip_root),
            Backend::Zip(b) => b.extract(archive, target, strip_root),
            Backend::SevenZip(b) => b.extract(archive, target, strip_root),
            Backend::Rar(b) => b.extract(archive, target, strip_root),
        }
    }

    fn strips_in_place(&self) -> (r: bool) {
        match self {
            Backend::Tar(b) => b.strips_in_place(),
            Backend::Zip(b) => b.strips_in_place(),
            Backend::SevenZip(b) => b.strips_in_place(),
            Backend::Rar(b) => b.strips_in_place(),
        }
    }
}

/// The tar, zip and rar listings name one entry per line: every listing
/// line is an entry, in order, none dropped or added.
pub proof fn lemma_line_listings_keep_every_line(lines: Seq<Seq<char>>)
    ensures
        TarBackend.entries_of(lines).len() == lines.len(),
        ZipBackend.entries_of(lines).len() == lines.len(),
        RarBackend.entries_of(lines).len() == lines.len(),
        forall|i: int|
            0 <= i < lines.len() ==> {
                &&& #[trigger] TarBackend.entries_of(lines)[i] == lines[i]
                &&& ZipBackend.entries_of(lines)[i] == lines[i]
                &&& RarBackend.entries_of(lines)[i] == lines[i]
            },
{
}

/// The backend that handles a format: tar for tarballs, compressed or not.
pub open spec fn backend_of(format: Format) -> Backend {
    match format {
        Format::Tar | Format::Gzip | Format::Bzip2 | Format::Xz => Backend::Tar(TarBackend),
        Format::Zip => Backend::Zip(ZipBackend),
        Format::SevenZip => Backend::SevenZip(SevenZipBackend),
        Format::Rar => Backend::Rar(RarBackend),
    }
}

/// The backend that extracts archives of `format`.
pub fn backend_for(format: &Format) -> (r: Backend)
    ensures
        r == backend_of(*format),
{
    match format {
        Format::Tar | Format::Gzip | Format::Bzip2 | Format::Xz => Backend::Tar(TarBackend),
        Format::Zip => Backend::Zip(ZipBackend),
        Format::SevenZip => Backend::SevenZip(SevenZipBackend),
        Format::Rar => Backend::Rar(RarBackend),
    }
}

} // verus!
