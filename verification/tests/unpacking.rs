use std::path::{Path, PathBuf};

use lib::{
    archive_stem, extraction_plan, backend_for, detect_format, dry_run_message, join_path, listing_lines,
    overwrite_answer, resolve_dest, root_entry_name, sevenzip_listing, source_dir,
    temp_dir_name, Answer, ArgError, ArgEvent, ArgParser, Backend, DestError, Extractor, Format,
    RarBackend, SevenZipBackend, SpecialExecutionFlag, TarBackend, ZipBackend,
};

fn strings(items: &[&str]) -> Vec<String> {
    items.iter().map(|s| s.to_string()).collect()
}

fn padded(prefix: &[u8], len: usize) -> Vec<u8> {
    let mut v = prefix.to_vec();
    v.resize(len, 0);
    v
}

#[test]
fn detects_zip_signatures() {
    assert_eq!(detect_format(&padded(&[0x50, 0x4B, 0x03, 0x04], 8)), Some(Format::Zip));
    assert_eq!(detect_format(&padded(&[0x50, 0x4B, 0x05, 0x06], 8)), Some(Format::Zip));
}

#[test]
fn detects_compressed_streams() {
    assert_eq!(detect_format(&[0x1F, 0x8B, 0x08, 0, 0, 0, 0, 0]), Some(Format::Gzip));
    assert_eq!(detect_format(b"BZh91AY&"), Some(Format::Bzip2));
    assert_eq!(detect_format(&[0xFD, b'7', b'z', b'X', b'Z', 0x00, 0, 4]), Some(Format::Xz));
}

#[test]
fn detects_seven_zip_and_rar() {
    assert_eq!(detect_format(&[0x37, 0x7A, 0xBC, 0xAF, 0x27, 0x1C, 0, 4]), Some(Format::SevenZip));
    assert_eq!(detect_format(b"Rar!\x1a\x07\x01\x00"), Some(Format::Rar));
}

#[test]
fn short_file_reads_as_zero_padded() {
    // Five bytes of the xz signature; the sixth is the zero of the buffer.
    assert_eq!(detect_format(&[0xFD, b'7', b'z', b'X', b'Z']), Some(Format::Xz));
    assert_eq!(detect_format(&[0x50, 0x4B, 0x03]), None);
    assert_eq!(detect_format(&[]), None);
}

#[test]
fn detects_tar_by_ustar_at_257() {
    let mut h = vec![b'a'; 512];
    h[257..262].copy_from_slice(b"ustar");
    assert_eq!(detect_format(&h), Some(Format::Tar));
    let mut short = vec![b'a'; 261];
    short[257..261].copy_from_slice(b"usta");
    assert_eq!(detect_format(&short), None);
    let mut other = vec![b'a'; 300];
    other[257..262].copy_from_slice(b"ustaR");
    assert_eq!(detect_format(&other), None);
}

#[test]
fn leading_signature_wins_over_tar() {
    let mut h = vec![0u8; 512];
    h[0] = 0x1F;
    h[1] = 0x8B;
    h[257..262].copy_from_slice(b"ustar");
    assert_eq!(detect_format(&h), Some(Format::Gzip));
}

#[test]
fn listing_splits_trims_and_drops_empty_lines() {
    assert_eq!(
        listing_lines("dir/\ndir/a.txt\n\ndir/sub//\r\nlast/"),
        strings(&["dir", "dir/a.txt", "dir/sub", "last"])
    );
    assert_eq!(listing_lines(""), Vec::<String>::new());
    assert_eq!(listing_lines("/\n//\n"), Vec::<String>::new());
}

#[test]
fn listing_keeps_a_lone_carriage_return_on_the_last_line() {
    assert_eq!(listing_lines("a\r\nb\r"), strings(&["a", "b\r"]));
    assert_eq!(listing_lines("a\r\r\n"), strings(&["a\r"]));
}

#[test]
fn sevenzip_listing_reads_paths_after_separator() {
    let lines = strings(&[
        "7-Zip 23.01",
        "Path = archive.7z",
        "Type = 7z",
        "  ----------  ",
        "Path = top/a.txt",
        "Size = 3",
        "Path = top",
        "Attributes = D",
        "PathX = nope",
        "----------",
        "Path = top/b.txt",
    ]);
    assert_eq!(sevenzip_listing(&lines), strings(&["top/a.txt", "top", "top/b.txt"]));
    assert_eq!(sevenzip_listing(&strings(&["Path = x"])), Vec::<String>::new());
}

#[test]
fn root_found_when_all_entries_share_it() {
    let entries = strings(&["proj", "proj/src", "proj/src/main.rs", "proj/README"]);
    assert_eq!(root_entry_name(&entries), Some("proj".to_string()));
}

#[test]
fn no_root_for_flat_or_split_listings() {
    assert_eq!(root_entry_name(&strings(&[])), None);
    assert_eq!(root_entry_name(&strings(&["a.txt", "b.txt"])), None);
    assert_eq!(root_entry_name(&strings(&["proj"])), None);
    assert_eq!(root_entry_name(&strings(&["a/x", "b/y"])), None);
    assert_eq!(root_entry_name(&strings(&["/etc/passwd", "/etc/hosts"])), None);
    assert_eq!(root_entry_name(&strings(&["proj/x", "project/y"])), None);
}

#[test]
fn stem_strips_compound_tarball_extensions() {
    assert_eq!(archive_stem("src.tar.gz"), "src");
    assert_eq!(archive_stem("src.tar.bz2"), "src");
    assert_eq!(archive_stem("src.tar.xz"), "src");
    assert_eq!(archive_stem("src.tar.zst"), "src");
    assert_eq!(archive_stem(".tar.gz"), "");
}

#[test]
fn stem_otherwise_follows_file_stem() {
    assert_eq!(archive_stem("photos.zip"), "photos");
    assert_eq!(archive_stem("v1.2.7z"), "v1.2");
    assert_eq!(archive_stem("data.tgz"), "data");
    assert_eq!(archive_stem("README"), "README");
    assert_eq!(archive_stem(".hidden"), ".hidden");
    assert_eq!(archive_stem(".hidden.rar"), ".hidden");
    assert_eq!(archive_stem("trailing."), "trailing");
    for name in ["a.tar.gz", "photos.zip", "x.y.z", ".a", "..b"] {
        let expected = std::path::Path::new(name);
        let stem = archive_stem(name);
        assert!(name.starts_with(&stem));
        if !name.ends_with(".tar.gz") {
            assert_eq!(stem, expected.file_stem().unwrap().to_str().unwrap());
        }
    }
}

#[test]
fn join_matches_path_join() {
    for (dir, name) in [("/home/u", "x"), ("/", "x"), ("", "x"), ("/a/", "b"), ("/a", "/b"), ("/a", "")] {
        let expected = std::path::Path::new(dir).join(name);
        assert_eq!(join_path(dir, name), expected.to_str().unwrap());
    }
}

#[test]
fn destination_prefers_here_then_output_then_root_then_stem() {
    let parent = Some("/dl".to_string());
    let root = Some("proj".to_string());
    let cwd = Some("/home/u".to_string());
    // --here extracts into the current directory, not beside the archive.
    assert_eq!(resolve_dest(&root, &parent, "p.zip", None, true, &cwd), Ok("/home/u".to_string()));
    assert_eq!(resolve_dest(&root, &parent, "p.zip", Some("/out".to_string()), true, &cwd), Ok("/home/u".to_string()));
    assert_eq!(resolve_dest(&root, &parent, "p.zip", Some("/out".to_string()), false, &cwd), Ok("/out".to_string()));
    assert_eq!(resolve_dest(&root, &parent, "p.zip", None, false, &cwd), Ok("/dl/proj".to_string()));
    assert_eq!(resolve_dest(&None, &parent, "p.tar.gz", None, false, &cwd), Ok("/dl/p".to_string()));
    assert_eq!(resolve_dest(&None, &Some("/".to_string()), "p.zip", None, false, &None), Ok("/p".to_string()));
}

#[test]
fn destination_without_parent_or_current_directory_fails() {
    assert_eq!(resolve_dest(&None, &None, "p.zip", None, true, &None), Err(DestError::NoCurrentDir));
    assert_eq!(resolve_dest(&None, &None, "p.zip", None, true, &Some("/w".to_string())), Ok("/w".to_string()));
    assert_eq!(resolve_dest(&None, &None, "p.zip", None, false, &Some("/w".to_string())), Err(DestError::NoParent));
    assert_eq!(resolve_dest(&None, &None, "p.zip", Some("o".to_string()), false, &None), Ok("o".to_string()));
}

#[test]
fn flattening_keeps_entries_in_place() {
    // The root is dropped and the rest lands in parent/root: the same place
    // as extracting the entry itself into the parent, also with doubled
    // slashes after the root.
    let entries = strings(&["proj/a", "proj/b/c", "proj//d", "proj"]);
    let root = root_entry_name(&entries).unwrap();
    let dest = resolve_dest(&Some(root.clone()), &Some("/dl".to_string()), "x.zip", None, false, &None).unwrap();
    assert_eq!(dest, "/dl/proj");
    for e in &entries {
        let rest: Vec<_> = Path::new(e).components().skip(1).collect();
        let mut placed = PathBuf::from(&dest);
        placed.extend(rest);
        assert_eq!(placed, Path::new("/dl").join(e));
    }
}

#[test]
fn root_does_not_depend_on_order() {
    let a = strings(&["proj/a", "proj", "proj/b/c"]);
    let b = strings(&["proj/b/c", "proj/a", "proj"]);
    assert_eq!(root_entry_name(&a), root_entry_name(&b));
    let c = strings(&["x/1", "y/2"]);
    let d = strings(&["y/2", "x/1"]);
    assert_eq!(root_entry_name(&c), None);
    assert_eq!(root_entry_name(&d), None);
}

#[test]
fn plan_for_zip_goes_through_scratch_directory() {
    let backend = backend_for(&Format::Zip);
    let plan = extraction_plan(&backend, "/dl/p.zip", "/dl/proj", &Some("/dl".to_string()), "proj", true, false, 77);
    assert!(plan.confirm_overwrite);
    assert_eq!(plan.program, "unzip");
    assert_eq!(plan.scratch, Some("/dl/.unpack-tmp-proj-77".to_string()));
    assert_eq!(plan.args, strings(&["-q", "/dl/p.zip", "-d", "/dl/.unpack-tmp-proj-77"]));
    let expected = Path::new("/dl/proj").with_file_name(".unpack-tmp-proj-77");
    assert_eq!(Path::new(plan.scratch.as_ref().unwrap()), expected);
}

#[test]
fn plan_without_root_or_with_tar_extracts_in_place() {
    let zip = backend_for(&Format::Zip);
    let plan = extraction_plan(&zip, "/dl/p.zip", "/dl/p", &Some("/dl".to_string()), "p", false, false, 1);
    assert_eq!(plan.scratch, None);
    assert_eq!(plan.args, strings(&["-q", "/dl/p.zip", "-d", "/dl/p"]));
    let tar = backend_for(&Format::Gzip);
    let plan = extraction_plan(&tar, "/dl/p.tgz", "/w", &Some("/".to_string()), "w", true, true, 1);
    assert!(!plan.confirm_overwrite);
    assert_eq!(plan.scratch, None);
    assert_eq!(plan.args, strings(&["-xf", "/dl/p.tgz", "-C", "/w", "--strip-components=1"]));
}

#[test]
fn plan_scratch_for_rar_and_seven_zip() {
    let rar = backend_for(&Format::Rar);
    let plan = extraction_plan(&rar, "a.rar", "out/", &Some("".to_string()), "out", true, true, 5);
    assert!(!plan.confirm_overwrite);
    assert_eq!(plan.scratch, Some(".unpack-tmp-out-5".to_string()));
    assert_eq!(plan.args, strings(&["x", "-y", "a.rar", ".unpack-tmp-out-5/"]));
    let expected = Path::new("out/").with_file_name(".unpack-tmp-out-5");
    assert_eq!(Path::new(plan.scratch.as_ref().unwrap()), expected);
    let sz = backend_for(&Format::SevenZip);
    let plan = extraction_plan(&sz, "a.7z", "/", &None, "", true, false, 9);
    assert_eq!(plan.scratch, Some("/.unpack-tmp--9".to_string()));
    assert_eq!(plan.args, strings(&["x", "-y", "-o/.unpack-tmp--9", "a.7z"]));
}

#[test]
fn temp_dir_name_uses_destination_and_pid() {
    assert_eq!(temp_dir_name("proj", 4242), ".unpack-tmp-proj-4242");
    assert_eq!(temp_dir_name("", 0), ".unpack-tmp--0");
    assert_eq!(temp_dir_name("d", u32::MAX), format!(".unpack-tmp-d-{}", u32::MAX));
}

#[test]
fn source_dir_descends_into_single_directory() {
    assert_eq!(source_dir("/t", &strings(&["/t/proj"]), true), "/t/proj");
    assert_eq!(source_dir("/t", &strings(&["/t/file"]), false), "/t");
    assert_eq!(source_dir("/t", &strings(&["/t/a", "/t/b"]), true), "/t");
    assert_eq!(source_dir("/t", &strings(&[]), false), "/t");
}

#[test]
fn backend_for_each_format() {
    assert!(matches!(backend_for(&Format::Tar), Backend::Tar(_)));
    assert!(matches!(backend_for(&Format::Gzip), Backend::Tar(_)));
    assert!(matches!(backend_for(&Format::Bzip2), Backend::Tar(_)));
    assert!(matches!(backend_for(&Format::Xz), Backend::Tar(_)));
    assert!(matches!(backend_for(&Format::Zip), Backend::Zip(_)));
    assert!(matches!(backend_for(&Format::SevenZip), Backend::SevenZip(_)));
    assert!(matches!(backend_for(&Format::Rar), Backend::Rar(_)));
    assert_eq!(backend_for(&Format::Gzip).tool_to_check(), None);
    assert_eq!(backend_for(&Format::Zip).tool_to_check(), None);
    assert_eq!(backend_for(&Format::SevenZip).tool_to_check(), Some("7z".to_string()));
    assert_eq!(backend_for(&Format::Rar).tool_to_check(), Some("unrar".to_string()));
}

#[test]
fn tar_command_lines() {
    let b = TarBackend;
    assert_eq!(b.program(), "tar");
    assert_eq!(b.list_args("/a.tgz"), strings(&["-tf", "/a.tgz"]));
    assert_eq!(b.extract("/a.tgz", "/d", false), strings(&["-xf", "/a.tgz", "-C", "/d"]));
    assert_eq!(
        b.extract("/a.tgz", "/d", true),
        strings(&["-xf", "/a.tgz", "-C", "/d", "--strip-components=1"])
    );
    assert!(b.strips_in_place());
    assert_eq!(b.list(&strings(&["x", "x/y"])), strings(&["x", "x/y"]));
}

#[test]
fn zip_command_lines() {
    let b = ZipBackend;
    assert_eq!(b.program(), "unzip");
    assert_eq!(b.list_args("/a.zip"), strings(&["-Z1", "/a.zip"]));
    assert_eq!(b.extract("/a.zip", "/d", false), strings(&["-q", "/a.zip", "-d", "/d"]));
    assert_eq!(b.extract("/a.zip", "/t", true), strings(&["-q", "/a.zip", "-d", "/t"]));
    assert!(!b.strips_in_place());
}

#[test]
fn seven_zip_command_lines() {
    let b = SevenZipBackend;
    assert_eq!(b.program(), "7z");
    assert_eq!(b.list_args("/a.7z"), strings(&["l", "-slt", "/a.7z"]));
    assert_eq!(b.extract("/a.7z", "/d", false), strings(&["x", "-y", "-o/d", "/a.7z"]));
    assert!(!b.strips_in_place());
    assert_eq!(
        b.list(&strings(&["Path = /a.7z", "----------", "Path = q"])),
        strings(&["q"])
    );
}

#[test]
fn rar_command_lines() {
    let b = RarBackend;
    assert_eq!(b.program(), "unrar");
    assert_eq!(b.list_args("/a.rar"), strings(&["lb", "-y", "/a.rar"]));
    assert_eq!(b.extract("/a.rar", "/d//", false), strings(&["x", "-y", "/a.rar", "/d/"]));
    assert_eq!(b.extract("/a.rar", "/t", true), strings(&["x", "-y", "/a.rar", "/t/"]));
    assert!(!b.strips_in_place());
}

#[test]
fn backend_enum_dispatches() {
    let b = backend_for(&Format::SevenZip);
    assert_eq!(b.program(), "7z");
    assert_eq!(b.extract("a", "b", true), strings(&["x", "-y", "-ob", "a"]));
    assert!(backend_for(&Format::Xz).strips_in_place());
}

fn run_parser(args: &[&str]) -> (Vec<ArgEvent<String>>, ArgParser<String>) {
    let mut p = ArgParser::new();
    let mut events = Vec::new();
    for a in args {
        events.push(p.step(a));
    }
    (events, p)
}

#[test]
fn parses_a_plain_extraction() {
    let (events, p) = run_parser(&["a.zip"]);
    assert_eq!(events, vec![ArgEvent::Input("a.zip".to_string())]);
    let o = p.finish().unwrap();
    assert_eq!(o.input, "a.zip");
    assert_eq!(o.output, None);
    assert!(!o.here);
    assert_eq!(o.flag, SpecialExecutionFlag::Normal);
}

#[test]
fn parses_output_flags() {
    let (events, p) = run_parser(&["-o", "first", "a.zip", "--output", "-h"]);
    assert_eq!(
        events,
        vec![
            ArgEvent::Continue,
            ArgEvent::Output("first".to_string()),
            ArgEvent::Input("a.zip".to_string()),
            ArgEvent::Continue,
            ArgEvent::Output("-h".to_string()),
        ]
    );
    let o = p.finish().unwrap();
    assert_eq!(o.output, Some("-h".to_string()));
}

#[test]
fn parses_modes() {
    let (_, p) = run_parser(&["--dry-run", "a.zip"]);
    assert_eq!(p.finish().unwrap().flag, SpecialExecutionFlag::Dry);
    let (_, p) = run_parser(&["a.zip", "--list", "--here"]);
    let o = p.finish().unwrap();
    assert_eq!(o.flag, SpecialExecutionFlag::List);
    assert!(o.here);
}

#[test]
fn help_and_bad_arguments() {
    let (events, _) = run_parser(&["-?", "--help", "-h", "--bogus", "-"]);
    assert_eq!(
        events,
        vec![
            ArgEvent::Help,
            ArgEvent::Help,
            ArgEvent::Help,
            ArgEvent::Failed(ArgError::UnknownFlag("--bogus".to_string())),
            ArgEvent::Input("-".to_string()),
        ]
    );
    let (events, _) = run_parser(&["a", "b"]);
    assert_eq!(events[1], ArgEvent::Failed(ArgError::ExtraArgument("b".to_string())));
}

#[test]
fn refused_command_lines() {
    let (_, p) = run_parser(&["a.zip", "-o"]);
    let e = p.finish().unwrap_err();
    assert_eq!(e, ArgError::MissingOutputValue("-o".to_string()));
    assert!(!e.shows_usage());
    let (_, p) = run_parser(&["--here"]);
    assert_eq!(p.finish().unwrap_err(), ArgError::MissingInput);
    let (_, p) = run_parser(&["a.zip", "--here", "-o", "x"]);
    let e = p.finish().unwrap_err();
    assert_eq!(e, ArgError::HereWithOutput);
    assert!(e.shows_usage());
    let (_, p) = run_parser(&["a.zip", "--list", "--dry-run"]);
    assert_eq!(p.finish().unwrap_err(), ArgError::DryRunWithList);
    // A missing input is reported before the other conflicts.
    let (_, p) = run_parser(&["--here", "-o", "x", "--list", "--dry-run"]);
    assert_eq!(p.finish().unwrap_err(), ArgError::MissingInput);
}

#[test]
fn overwrite_answers() {
    assert_eq!(overwrite_answer("y\n"), Answer::Proceed);
    assert_eq!(overwrite_answer("  Y \r\n"), Answer::Proceed);
    assert_eq!(overwrite_answer("n\n"), Answer::Abort);
    assert_eq!(overwrite_answer("N"), Answer::Abort);
    assert_eq!(overwrite_answer("\n"), Answer::Abort);
    assert_eq!(overwrite_answer("\u{a0}\u{3000}"), Answer::Abort);
    assert_eq!(overwrite_answer("yes\n"), Answer::AskAgain);
    assert_eq!(overwrite_answer("maybe"), Answer::AskAgain);
}

#[test]
fn overwrite_answer_agrees_with_trim_and_lowercase() {
    for line in ["y", " Y\t", "n", "N", "", "   ", "yes", "x", "\u{2003}y\u{2003}", "\u{200b}y"] {
        let t = line.trim().to_lowercase();
        let expected = match t.as_str() {
            "y" => Answer::Proceed,
            "n" | "" => Answer::Abort,
            _ => Answer::AskAgain,
        };
        assert_eq!(overwrite_answer(line), expected, "{:?}", line);
    }
}

#[test]
fn dry_run_messages() {
    assert_eq!(dry_run_message(3, "/dl/proj", false, false), "Would extract 3 entries into /dl/proj");
    assert_eq!(
        dry_run_message(120, "/dl/proj", true, true),
        "Would extract 120 entries into /dl/proj (exists), stripping common root"
    );
    assert_eq!(dry_run_message(0, "d", false, true), "Would extract 0 entries into d, stripping common root");
}
