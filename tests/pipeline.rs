use std::io::Write;

use binfinder::binaries::{
    attach_manpaths, get_hot_binaries, is_binary_exist, search_binaries, Binary,
    DescriptionLookup, Manpath, Manpaths, Registry, HEAT_RANGE, PERFECT_SCORE,
};
use binfinder::cli::{AppMode, AppModeArg};
use binfinder::descriptions::{
    get_description, insert_description, remove_description, Description, DescriptionCache,
};
use binfinder::man::{parse_manpaths, ManpageBuffer};
use binfinder::roff::{extract_description_section, find_description_section, DescriptionSection};

const MAN_PAGE: &str = ".TH LS 1\n.SH NAME\nls \\- list\n.SH DESCRIPTION\nDoes a thing.\n.SH OPTIONS\n-a\n";

fn strings(v: &[&str]) -> Vec<String> {
    v.iter().map(|s| s.to_string()).collect()
}

fn binary(name: &str) -> Binary {
    Binary { name: name.to_string(), manpath: Manpath::Unresolved }
}

fn gzip(data: &[u8]) -> Vec<u8> {
    let mut enc = flate2::write::GzEncoder::new(Vec::new(), flate2::Compression::default());
    enc.write_all(data).unwrap();
    enc.finish().unwrap()
}

#[test]
fn description_is_trimmed_and_joined() {
    let d = Description::new("  Does a\nthing.  \n".to_string());
    assert_eq!(d.value, "Does a thing.");
}

#[test]
fn description_drops_leading_cross_reference() {
    let d = Description::new(".Nm ls lists files".to_string());
    assert_eq!(d.value, "ls lists files");
}

#[test]
fn description_keeps_dot_text_without_space() {
    let d = Description::new(".hidden".to_string());
    assert_eq!(d.value, ".hidden");
}

#[test]
fn description_strips_escape_sequences() {
    let d = Description::new("\x1b[1mbold\x1b[0m text".to_string());
    assert_eq!(d.value, "bold text");
}

#[test]
fn description_of_empty_text_is_empty() {
    let d = Description::new(String::new());
    assert_eq!(d.value, "");
}

#[test]
fn cache_insert_get_remove() {
    let mut cache = DescriptionCache::new();
    let ls = binary("ls");
    assert!(get_description(&cache, &ls).is_none());
    insert_description(&mut cache, &ls, Description::new("first".to_string()));
    insert_description(&mut cache, &ls, Description::new("second".to_string()));
    assert_eq!(get_description(&cache, &ls).unwrap().value, "second");
    assert!(get_description(&cache, &binary("cat")).is_none());
    remove_description(&mut cache, &ls);
    assert!(get_description(&cache, &ls).is_none());
}

#[test]
fn second_lookup_is_served_from_cache() {
    let mut cache = DescriptionCache::new();
    let mut ls = binary("ls");
    ls.manpath = Manpath::Resolved("/man/ls.1".to_string());
    match ls.get_description(&cache) {
        DescriptionLookup::Extract(p) => assert_eq!(p, "/man/ls.1"),
        _ => panic!("expected an extraction"),
    }
    ls.store_description(&mut cache, Description::new("Lists.".to_string()));
    for _ in 0..2 {
        match ls.get_description(&cache) {
            DescriptionLookup::Cached(d) => assert_eq!(d.value, "Lists."),
            _ => panic!("expected a cache hit"),
        }
    }
}

#[test]
fn lookup_without_manpath_is_unavailable() {
    let cache = DescriptionCache::new();
    let mut b = binary("x");
    assert!(matches!(b.get_description(&cache), DescriptionLookup::Unavailable));
    b.manpath = Manpath::Absent;
    assert!(matches!(b.get_description(&cache), DescriptionLookup::Unavailable));
    assert!(b.extract_description(MAN_PAGE.as_bytes().to_vec()).is_none());
}

#[test]
fn section_bounds_in_man_page() {
    let buf = ManpageBuffer::new(MAN_PAGE.as_bytes().to_vec());
    let (start, end) = find_description_section(&buf).unwrap();
    assert_eq!(&MAN_PAGE[start..end], "Does a thing.\n");
}

#[test]
fn section_bounds_in_mdoc_page() {
    let page = ".Dd x\n.Sh NAME\nls\n.Sh  DESCRIPTION \nBody\n.Sh SEE ALSO\n";
    let (start, end) = find_description_section(&ManpageBuffer::new(page.as_bytes().to_vec())).unwrap();
    assert_eq!(&page[start..end], "Body\n");
}

#[test]
fn mixed_conventions_have_no_section() {
    let page = ".SH NAME\nls\n.Sh DESCRIPTION\nDoes a thing.\n.SH OPTIONS\n";
    assert!(find_description_section(&ManpageBuffer::new(page.as_bytes().to_vec())).is_none());
    assert!(extract_description_section(ManpageBuffer::new(page.as_bytes().to_vec())).is_none());
}

#[test]
fn section_without_end_is_not_found() {
    let page = ".SH NAME\nls\n.SH DESCRIPTION\nDoes a thing.\n";
    assert!(find_description_section(&ManpageBuffer::new(page.as_bytes().to_vec())).is_none());
}

#[test]
fn page_without_description_is_not_found() {
    let page = ".SH NAME\nls\n.SH OPTIONS\n-a\n";
    assert!(find_description_section(&ManpageBuffer::new(page.as_bytes().to_vec())).is_none());
}

#[test]
fn non_utf8_page_has_no_section() {
    let mut page = MAN_PAGE.as_bytes().to_vec();
    page.push(0xff);
    assert!(extract_description_section(ManpageBuffer::new(page)).is_none());
}

#[test]
fn into_inner_decodes_text() {
    assert_eq!(ManpageBuffer::new(b"abc".to_vec()).into_inner().unwrap(), "abc");
    assert!(ManpageBuffer::new(vec![0xc3]).into_inner().is_none());
}

#[test]
fn typesetter_input_layout() {
    let section = extract_description_section(ManpageBuffer::new(MAN_PAGE.as_bytes().to_vec())).unwrap();
    let input = String::from_utf8(section.typesetter_input()).unwrap();
    assert_eq!(
        input,
        ".nh\n.TH LS 1\n.SH NAME\nls \\- list\n.SH DESCRIPTION\n\\&__#DESCRIPTION_START#__Does a thing.\n"
    );
}

#[test]
fn round_trip_description_from_rendering() {
    let rendered = b"LS(1)\n\nNAME\n     ls - list\n\nDESCRIPTION\n     __#DESCRIPTION_START#__Does a thing.\n\n\n".to_vec();
    let d = DescriptionSection::get_description(&rendered).unwrap();
    assert_eq!(d.value, "Does a thing.");
}

#[test]
fn rendering_without_marker_gives_nothing() {
    assert!(DescriptionSection::get_description(&b"Does a thing.\n".to_vec()).is_none());
    assert!(DescriptionSection::get_description(&vec![0xff, 0xfe]).is_none());
}

#[test]
fn compressed_and_plain_pages_agree() {
    let mut b = binary("ls");
    b.manpath = Manpath::Resolved("/usr/share/man/man1/ls.1".to_string());
    let plain = b.extract_description(MAN_PAGE.as_bytes().to_vec()).unwrap();
    b.manpath = Manpath::Resolved("/usr/share/man/man1/ls.1.gz".to_string());
    let packed = b.extract_description(gzip(MAN_PAGE.as_bytes())).unwrap();
    assert_eq!(plain.typesetter_input(), packed.typesetter_input());
}

#[test]
fn gzip_page_is_inflated_by_name() {
    let packed = gzip(MAN_PAGE.as_bytes());
    let buf = ManpageBuffer::from_file(&"ls.1.gz".to_string(), packed.clone());
    assert_eq!(buf.get_cursor_ref(), &MAN_PAGE.as_bytes().to_vec());
    let raw = ManpageBuffer::from_file(&"ls.1".to_string(), packed.clone());
    assert_eq!(raw.get_cursor_ref(), &packed);
    let hidden = ManpageBuffer::from_file(&"/man/.gz".to_string(), packed.clone());
    assert_eq!(hidden.get_cursor_ref(), &packed);
}

#[test]
fn lookup_batch_with_missing_name() {
    let m = parse_manpaths(
        Some(16),
        &b"/usr/share/man/man1/ls.1.gz\n".to_vec(),
        &b"No manual entry for nonexistent-xyz\n".to_vec(),
    )
    .unwrap();
    assert_eq!(m.paths, strings(&["/usr/share/man/man1/ls.1.gz"]));
    assert_eq!(m.not_founds, strings(&["nonexistent-xyz"]));
}

#[test]
fn lookup_output_lines_drop_carriage_returns() {
    let m = parse_manpaths(Some(0), &b"/a.1\r\n/b.1".to_vec(), &b"warning\n".to_vec()).unwrap();
    assert_eq!(m.paths, strings(&["/a.1", "/b.1"]));
    assert!(m.not_founds.is_empty());
}

#[test]
fn lookup_fails_on_other_status() {
    assert!(parse_manpaths(Some(1), &Vec::new(), &Vec::new()).is_none());
    assert!(parse_manpaths(None, &Vec::new(), &Vec::new()).is_none());
    assert!(parse_manpaths(Some(0), &vec![0xff], &Vec::new()).is_none());
}

#[test]
fn registry_keeps_each_name_once() {
    let reg = Registry::build(&strings(&["ls", "cat", "ls"]));
    assert_eq!(reg.size(), 2);
    assert!(is_binary_exist(&reg, &"ls".to_string()));
    assert!(is_binary_exist(&reg, &"cat".to_string()));
    assert!(!is_binary_exist(&reg, &"rm".to_string()));
}

#[test]
fn exact_name_ranks_first_with_perfect_score() {
    let reg = Registry::build(&strings(&["grep", "ls", "lsblk", "cat"]));
    let r = search_binaries(&reg, "ls");
    let (score, idx) = r.get(0);
    assert_eq!(reg.get(idx).name, "ls");
    assert_eq!(score, PERFECT_SCORE);
    assert_eq!(f64::from_bits(score), 1.0);
    for k in 1..r.len() {
        assert!(r.get(k - 1).0 > r.get(k).0);
    }
    assert_eq!(r.ordered_iter()[0], idx);
}

#[test]
fn equal_scores_keep_the_first() {
    let reg = Registry::build(&strings(&["ab", "cd", "ef"]));
    let r = search_binaries(&reg, "xy");
    assert_eq!(r.len(), 1);
    assert_eq!(r.get(0), (0u64, 0usize));
}

#[test]
fn empty_registry_gives_empty_ranking() {
    let reg = Registry::build(&Vec::new());
    assert_eq!(search_binaries(&reg, "ls").len(), 0);
}

#[test]
fn hot_batch_is_bounded_and_skips_known_pages() {
    let names: Vec<String> = (0..50).map(|i| format!("cmd{:02}", i)).collect();
    let mut reg = Registry::build(&names);
    let r = search_binaries(&reg, "cmd");
    let batch = get_hot_binaries(&reg, &r, 3);
    assert!(batch.len() <= 3 + HEAT_RANGE);
    assert_eq!(batch.len(), r.len().min(3 + HEAT_RANGE));
    let found = Manpaths { paths: vec![], not_founds: batch.iter().map(|&i| reg.get(i).name.clone()).collect() };
    attach_manpaths(&mut reg, &batch, &found);
    for &i in &batch {
        assert!(matches!(reg.get(i).manpath, Manpath::Absent));
    }
    assert!(get_hot_binaries(&reg, &r, 3).is_empty());
}

#[test]
fn attach_assigns_paths_in_order() {
    let mut reg = Registry::build(&strings(&["ls", "nonexistent-xyz", "cat"]));
    let batch = vec![0usize, 1, 2];
    let found = Manpaths {
        paths: strings(&["/man/ls.1", "/man/cat.1"]),
        not_founds: strings(&["nonexistent-xyz"]),
    };
    attach_manpaths(&mut reg, &batch, &found);
    assert!(matches!(&reg.get(0).manpath, Manpath::Resolved(p) if p == "/man/ls.1"));
    assert!(matches!(reg.get(1).manpath, Manpath::Absent));
    assert!(matches!(&reg.get(2).manpath, Manpath::Resolved(p) if p == "/man/cat.1"));
    assert_eq!(reg.get(1).name, "nonexistent-xyz");
}

#[test]
fn attach_with_too_few_paths_leaves_entry_unresolved() {
    let mut reg = Registry::build(&strings(&["a", "b"]));
    let found = Manpaths { paths: strings(&["/man/a.1"]), not_founds: vec![] };
    attach_manpaths(&mut reg, &vec![0usize, 1], &found);
    assert!(matches!(reg.get(1).manpath, Manpath::Unresolved));
}

#[test]
fn app_mode_from_flags() {
    assert!(AppMode::from(&AppModeArg { simple: true, interactive: true }) == AppMode::Simple);
    assert!(AppMode::from(&AppModeArg { simple: false, interactive: true }) == AppMode::Interactive);
}

#[test]
fn heading_argument_is_trimmed_of_unicode_spaces() {
    let page = ".SH NAME\nls\n.SH\u{a0}DESCRIPTION\u{3000}\nBody\n.SH OPTIONS\n";
    let (start, end) = find_description_section(&ManpageBuffer::new(page.as_bytes().to_vec())).unwrap();
    assert_eq!(&page[start..end], "Body\n");
}
