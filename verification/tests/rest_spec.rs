use flate2::write::GzEncoder;
use flate2::Compression;
use opensearch_transport::rest_spec::{
    extract_specs, file_name, keep_matching, normalize, tarball_url, user_agent, ArchiveEntry,
    SpecFile, Stop,
};
use std::io::Write;
use std::path::Path;

fn tarball(members: &[(&str, &[u8])]) -> Vec<u8> {
    let mut builder = tar::Builder::new(Vec::new());
    for (path, contents) in members {
        let mut header = tar::Header::new_gnu();
        header.set_size(contents.len() as u64);
        header.set_mode(0o644);
        builder.append_data(&mut header, path, *contents).unwrap();
    }
    builder.into_inner().unwrap()
}

/// An archive whose members have exactly the given bytes for their paths.
fn raw_tarball(members: &[(&[u8], &[u8])]) -> Vec<u8> {
    let mut builder = tar::Builder::new(Vec::new());
    for (path, contents) in members {
        let mut header = tar::Header::new_gnu();
        header.as_old_mut().name[..path.len()].copy_from_slice(path);
        header.set_size(contents.len() as u64);
        header.set_mode(0o644);
        header.set_cksum();
        builder.append(&header, *contents).unwrap();
    }
    builder.into_inner().unwrap()
}

fn gzip(data: &[u8]) -> Vec<u8> {
    let mut encoder = GzEncoder::new(Vec::new(), Compression::default());
    encoder.write_all(data).unwrap();
    encoder.finish().unwrap()
}

fn pairs(files: &[SpecFile]) -> Vec<(Vec<u8>, Vec<u8>)> {
    files.iter().map(|f| (f.name.clone(), f.contents.clone())).collect()
}

fn pair(name: &[u8], contents: &[u8]) -> (Vec<u8>, Vec<u8>) {
    (name.to_vec(), contents.to_vec())
}

fn entry(path: &[u8], contents: &[u8]) -> ArchiveEntry {
    ArchiveEntry { path: path.to_vec(), contents: contents.to_vec() }
}

const API: &str = "elastic-elasticsearch-0123abc/rest-api-spec/src/main/resources/rest-api-spec/api";

#[test]
fn extract_specs_picks_the_api_descriptions() {
    let bulk = format!("{}/bulk.json", API);
    let search = format!("{}/search.json", API);
    let common = format!("{}/_common.json", API);
    let readme = format!("{}/README.markdown", API);
    let test = "elastic-elasticsearch-0123abc/rest-api-spec/src/main/resources/rest-api-spec/test/bulk/10_basic.yml";
    let other = "elastic-elasticsearch-0123abc/x-pack/plugin/src/test/resources/rest-api-spec/api/xpack.json";
    let archive = gzip(&tarball(&[
        ("elastic-elasticsearch-0123abc/README.asciidoc", b"= Elasticsearch"),
        (bulk.as_str(), b"{\"bulk\":{}}"),
        (readme.as_str(), b"# API"),
        (test, b"---"),
        (search.as_str(), b"{\"search\":{}}"),
        (other, b"{\"xpack\":{}}"),
        (common.as_str(), b"{}"),
    ]));
    let harvest = extract_specs(&archive);
    assert!(matches!(harvest.stop, Stop::Complete));
    assert_eq!(harvest.backslash_separates, std::path::is_separator('\\'));
    assert_eq!(
        pairs(&harvest.files),
        vec![
            pair(b"bulk.json", b"{\"bulk\":{}}"),
            pair(b"search.json", b"{\"search\":{}}"),
            pair(b"_common.json", b"{}"),
        ]
    );
}

#[test]
fn extract_specs_matches_from_the_root_of_the_archive_too() {
    let archive = gzip(&tarball(&[
        ("rest-api-spec/src/main/resources/rest-api-spec/api/get.json", b"{\"get\":1}"),
        ("rest-api-spec/src/main/resources/rest-api-spec/api/sub/deep.json", b"{\"deep\":1}"),
        ("xrest-api-spec/src/main/resources/rest-api-spec/api/no.json", b"{}"),
    ]));
    let harvest = extract_specs(&archive);
    assert!(matches!(harvest.stop, Stop::Complete));
    assert_eq!(
        pairs(&harvest.files),
        vec![pair(b"get.json", b"{\"get\":1}"), pair(b"deep.json", b"{\"deep\":1}")]
    );
}

#[test]
fn extract_specs_of_an_archive_without_descriptions_is_empty() {
    let harvest = extract_specs(&gzip(&tarball(&[("a/b.json", b"{}")])));
    assert!(harvest.files.is_empty());
    assert!(matches!(harvest.stop, Stop::Complete));
    let harvest = extract_specs(&gzip(&tarball(&[])));
    assert!(harvest.files.is_empty());
    assert!(matches!(harvest.stop, Stop::Complete));
}

#[test]
fn extract_specs_keeps_large_contents_whole() {
    let contents: Vec<u8> = (0..100_000u32).map(|i| (i % 251) as u8).collect();
    let path = format!("{}/big.json", API);
    let archive = gzip(&tarball(&[(path.as_str(), contents.as_slice())]));
    assert!(archive.len() < contents.len());
    let harvest = extract_specs(&archive);
    assert_eq!(harvest.files.len(), 1);
    assert_eq!(harvest.files[0].name, b"big.json".to_vec());
    assert_eq!(harvest.files[0].contents, contents);
}

#[test]
fn a_backslash_separates_only_where_the_system_has_it_so() {
    let named = format!("{}/a\\b.json", API);
    let archive = gzip(&tarball(&[
        (
            "top\\rest-api-spec/src/main/resources/rest-api-spec\\api/count.json",
            b"{\"count\":1}",
        ),
        (named.as_str(), b"{\"ab\":1}"),
    ]));
    let harvest = extract_specs(&archive);
    assert!(matches!(harvest.stop, Stop::Complete));
    assert_eq!(harvest.backslash_separates, std::path::is_separator('\\'));
    if harvest.backslash_separates {
        assert_eq!(
            pairs(&harvest.files),
            vec![pair(b"count.json", b"{\"count\":1}"), pair(b"b.json", b"{\"ab\":1}")]
        );
    } else {
        assert_eq!(pairs(&harvest.files), vec![pair(b"a\\b.json", b"{\"ab\":1}")]);
    }
}

#[test]
fn normalize_writes_a_slash_for_every_backslash() {
    assert_eq!(normalize(b"a\\b/c\\d.json"), b"a/b/c/d.json".to_vec());
    assert_eq!(normalize(b"plain/path"), b"plain/path".to_vec());
    assert_eq!(normalize(b""), b"".to_vec());
}

#[test]
fn the_glob_matches_the_paths_of_api_descriptions_and_no_others() {
    let dir = "rest-api-spec/src/main/resources/rest-api-spec/api/";
    let matching = [
        format!("{}a.json", dir),
        format!("/{}a.json", dir),
        format!("x/{}a.json", dir),
        format!("x/y/{}a.json", dir),
        format!("{}.json", dir),
        format!("{}sub/dir/a.json", dir),
        format!("{}a.yml/b.json", dir),
        format!("//{}a.json.json", dir),
        format!("x\ny/{}a\n.json", dir),
    ];
    let others = [
        format!("{}a.jso", dir),
        format!("{}a.json ", dir),
        format!("{}a.JSON", dir),
        format!("{}a.json/", dir),
        format!("x{}a.json", dir),
        format!("x/REST-api-spec/src/main/resources/rest-api-spec/api/a.json"),
        format!("x/rest-api-spec/src/main/resources/rest-api-spec/api.json"),
        format!("x/rest-api-spec/src/main/resources/rest-api-spec/apia.json"),
        format!("rest-api-spec/src/main/resources/rest-api-spec/api/json"),
        format!("x/rest_api_spec/src/main/resources/rest-api-spec/api/a.json"),
        format!("a.json"),
        format!(".json"),
    ];
    let mut members: Vec<(String, Vec<u8>)> = Vec::new();
    for (i, path) in matching.iter().enumerate() {
        members.push((path.clone(), format!("m{}", i).into_bytes()));
        members.push((others[i % others.len()].clone(), b"other".to_vec()));
    }
    for path in others.iter() {
        members.push((path.clone(), b"other".to_vec()));
    }
    let listed: Vec<(&[u8], &[u8])> =
        members.iter().map(|(p, c)| (p.as_bytes(), c.as_slice())).collect();
    let harvest = extract_specs(&gzip(&raw_tarball(&listed)));
    assert!(matches!(harvest.stop, Stop::Complete));
    let contents: Vec<Vec<u8>> = harvest.files.iter().map(|f| f.contents.clone()).collect();
    let expected: Vec<Vec<u8>> =
        (0..matching.len()).map(|i| format!("m{}", i).into_bytes()).collect();
    assert_eq!(contents, expected);
    for file in &harvest.files {
        assert!(file.name.ends_with(b".json"));
        assert!(!file.name.contains(&b'/'));
    }
}

#[test]
fn extract_specs_reads_no_further_than_the_end_of_the_archive() {
    let path = format!("{}/get.json", API);
    let mut archive = gzip(&tarball(&[(path.as_str(), b"{\"get\":1}")]));
    let last = archive.len() - 1;
    archive[last] ^= 0xff;
    let harvest = extract_specs(&archive);
    assert!(matches!(harvest.stop, Stop::Complete));
    assert_eq!(pairs(&harvest.files), vec![pair(b"get.json", b"{\"get\":1}")]);
    archive.extend_from_slice(b"trailing bytes");
    let harvest = extract_specs(&archive);
    assert!(matches!(harvest.stop, Stop::Complete));
    assert_eq!(harvest.files.len(), 1);
}

#[test]
fn extract_specs_stops_at_what_is_not_gzip() {
    let plain = tarball(&[("a/b.json", b"{}")]);
    for data in [plain.as_slice(), b"", b"not an archive"] {
        let harvest = extract_specs(data);
        assert!(matches!(harvest.stop, Stop::Read(_)));
        assert!(harvest.files.is_empty());
    }
}

#[test]
fn extract_specs_stops_at_what_is_not_a_tar_archive() {
    let harvest = extract_specs(&gzip(&[b'x'; 1000]));
    assert!(matches!(harvest.stop, Stop::Read(_)));
    assert!(harvest.files.is_empty());
}

#[test]
fn extract_specs_keeps_what_it_gathered_before_a_failure() {
    let first = format!("{}/first.json", API);
    let whole = tarball(&[(first.as_str(), b"{\"first\":1}"), ("other/big.bin", &[b'y'; 4000])]);
    let cut = gzip(&whole[..512 + 512 + 512 + 1000]);
    let harvest = extract_specs(&cut);
    assert!(matches!(harvest.stop, Stop::Read(_)));
    assert_eq!(pairs(&harvest.files), vec![pair(b"first.json", b"{\"first\":1}")]);
    let compressed = gzip(&whole);
    let harvest = extract_specs(&compressed[..compressed.len() / 2]);
    assert!(matches!(harvest.stop, Stop::Read(_)));
}

#[test]
fn a_matched_member_that_the_data_cuts_short_becomes_a_shortened_file() {
    let first = format!("{}/first.json", API);
    let second = format!("{}/second.json", API);
    let whole = tarball(&[(first.as_str(), b"{\"first\":1}"), (second.as_str(), &[b'y'; 4000])]);
    let cut = gzip(&whole[..512 + 512 + 512 + 1000]);
    let harvest = extract_specs(&cut);
    assert!(matches!(harvest.stop, Stop::Read(_)));
    assert_eq!(
        pairs(&harvest.files),
        vec![pair(b"first.json", b"{\"first\":1}"), pair(b"second.json", &[b'y'; 1000])]
    );
}

#[test]
fn file_name_is_the_last_part_of_a_path() {
    let cases: [(&[u8], Option<&[u8]>); 22] = [
        (b"a/b/c.json", Some(b"c.json")),
        (b"c.json", Some(b"c.json")),
        (b"/c.json", Some(b"c.json")),
        (b"a//b", Some(b"b")),
        (b"a/b/", Some(b"b")),
        (b"a/b///", Some(b"b")),
        (b"a/b/.", Some(b"b")),
        (b"a/b/./", Some(b"b")),
        (b"a/./", Some(b"a")),
        (b"a/b/././/.", Some(b"b")),
        (b"a/...", Some(b"...")),
        (b"a/.b", Some(b".b")),
        (b"a/b.", Some(b"b.")),
        (b"a/..b", Some(b"..b")),
        (b"", None),
        (b"/", None),
        (b"//", None),
        (b".", None),
        (b"./", None),
        (b"/.", None),
        (b"..", None),
        (b"a/b/..", None),
    ];
    for (path, expected) in cases {
        assert_eq!(file_name(path, false), expected.map(|n| n.to_vec()));
        assert_eq!(file_name(path, true), expected.map(|n| n.to_vec()));
    }
    assert_eq!(file_name(b"a/../", false), None);
    assert_eq!(file_name(b"./.", false), None);
    assert_eq!(file_name(b"../x/evil.json", false), Some(b"evil.json".to_vec()));
    assert_eq!(file_name(b"/etc/../../x/evil.json", false), Some(b"evil.json".to_vec()));
}

#[test]
fn file_name_splits_at_a_backslash_only_where_it_separates() {
    assert_eq!(file_name(b"dir/a\\b.json", false), Some(b"a\\b.json".to_vec()));
    assert_eq!(file_name(b"dir/a\\b.json", true), Some(b"b.json".to_vec()));
    assert_eq!(file_name(b"a\\b\\", false), Some(b"a\\b\\".to_vec()));
    assert_eq!(file_name(b"a\\b\\", true), Some(b"b".to_vec()));
    assert_eq!(file_name(b"a\\..", false), Some(b"a\\..".to_vec()));
    assert_eq!(file_name(b"a\\..", true), None);
    assert_eq!(file_name(b"\\", false), Some(b"\\".to_vec()));
    assert_eq!(file_name(b"\\", true), None);
}

#[test]
fn file_name_agrees_with_the_paths_of_this_system() {
    let backslash_separates = std::path::is_separator('\\');
    let paths = [
        "a/b/c.json", "c.json", "/c.json", "a//b", "a/b/", "a/b///", "a/b/.", "a/b/./", "a/./",
        "a/...", "a/.b", "a/b.", "a/..b", "", "/", "//", ".", "./", "/.", "..", "a/b/..", "a/../",
        "./.", "../x/evil.json", "dir/a\\b.json", "a\\b\\", "a\\..", "\\", "./a", "a/.././b",
        ".//.", "a/b/.//", "x/.hidden/", "..a/", "a/ ", " ",
    ];
    for path in paths {
        let expected = Path::new(path).file_name().map(|n| n.to_str().unwrap().as_bytes().to_vec());
        assert_eq!(file_name(path.as_bytes(), backslash_separates), expected, "path {:?}", path);
    }
}

#[test]
fn keep_matching_keeps_the_marked_members_in_order() {
    let members = vec![entry(b"x/a.json", b"A"), entry(b"x/b.json", b"B"), entry(b"c.json", b"C")];
    let (files, stopped) = keep_matching(&members, &[true, false, true], false);
    assert_eq!(pairs(&files), vec![pair(b"a.json", b"A"), pair(b"c.json", b"C")]);
    assert_eq!(stopped, None);
    assert!(keep_matching(&members, &[false, false, false], false).0.is_empty());
    assert_eq!(pairs(&keep_matching(&members, &[false, true], false).0), vec![pair(b"b.json", b"B")]);
    assert!(keep_matching(&members, &[], false).0.is_empty());
    assert_eq!(keep_matching(&members, &[true, true, true, true], false).0.len(), 3);
}

#[test]
fn keep_matching_takes_the_name_from_the_path_as_it_is() {
    let members = vec![entry(b"x/a\\b.json", b"A"), entry(b"y\\c.json", b"C")];
    let (files, stopped) = keep_matching(&members, &[true, true], false);
    assert_eq!(pairs(&files), vec![pair(b"a\\b.json", b"A"), pair(b"y\\c.json", b"C")]);
    assert_eq!(stopped, None);
    let (files, _) = keep_matching(&members, &[true, true], true);
    assert_eq!(pairs(&files), vec![pair(b"b.json", b"A"), pair(b"c.json", b"C")]);
}

#[test]
fn keep_matching_stops_at_a_marked_member_without_a_file_name() {
    let members = vec![
        entry(b"x/a.json", b"A"),
        entry(b"skipped/..", b"S"),
        entry(b"x/..", b"N"),
        entry(b"x/c.json", b"C"),
    ];
    let (files, stopped) = keep_matching(&members, &[true, false, true, true], false);
    assert_eq!(pairs(&files), vec![pair(b"a.json", b"A")]);
    assert_eq!(stopped, Some(2));
    let (files, stopped) = keep_matching(&vec![entry(b"", b"E")], &[true], false);
    assert!(files.is_empty());
    assert_eq!(stopped, Some(0));
}

#[test]
fn the_tarball_of_a_branch() {
    assert_eq!(
        tarball_url(b"main"),
        b"https://api.github.com/repos/elastic/elasticsearch/tarball/main".to_vec()
    );
    assert_eq!(
        tarball_url(b"7.x"),
        b"https://api.github.com/repos/elastic/elasticsearch/tarball/7.x".to_vec()
    );
}

#[test]
fn the_user_agent_names_the_program() {
    assert_eq!(user_agent(b"api_generator"), b"opensearch-rs/api_generator".to_vec());
}
