use mediainfo::cascade::parse_pattern;
use mediainfo::num::parse_u32;
use mediainfo::parse_filename;
use mediainfo::parse_path;
use mediainfo::pattern::Pattern;
use mediainfo::rope::Rope;
use mediainfo::title::trim_delims;

fn concat_parts(rope: &Rope) -> Vec<u8> {
    let mut all = Vec::new();
    for part in rope.iter() {
        all.extend_from_slice(&part.bytes);
    }
    all
}

#[test]
fn partition_preserved_by_claims() {
    let mut rope = Rope::new(b"[Group] Title - 05 [720p].mkv".to_vec());
    let ext = Pattern::compile("\\.([A-Za-z0-9]{2,4})$").unwrap();
    let res = Pattern::compile("([0-9]{3,4}p|[0-9]{3,4}x[0-9]{3,4})").unwrap();
    parse_pattern(&mut rope, &ext);
    parse_pattern(&mut rope, &res);
    assert!(concat_parts(&rope) == b"[Group] Title - 05 [720p].mkv".to_vec());
}

#[test]
fn claimed_parts_stay_claimed() {
    let plain = Pattern::compile("(100)").unwrap();
    let bounded = Pattern::compile("[^0-9A-Za-z]([0-9]{2,3})[^0-9A-Za-z]").unwrap();

    let mut rope = Rope::new(b"A 100 B".to_vec());
    let first = parse_pattern(&mut rope, &bounded);
    assert!(first == Some(b"100".to_vec()));
    // the second claim lands inside the first one's range; the bytes it
    // covered stay claimed, so only "A" and "B" remain free
    let second = parse_pattern(&mut rope, &plain);
    assert!(second == Some(b"100".to_vec()));
    let free = rope.unmarked();
    let free_texts: Vec<Vec<u8>> = free.iter().map(|p| p.bytes.clone()).collect();
    assert!(free_texts == vec![b"A".to_vec(), b"B".to_vec()]);
    assert!(concat_parts(&rope) == b"A 100 B".to_vec());
}

#[test]
fn parse_is_deterministic() {
    let a = parse_filename("Game of Thrones Season 6 S06E05 720p Web Dl x264 Mrlss");
    let b = parse_filename("Game of Thrones Season 6 S06E05 720p Web Dl x264 Mrlss");
    assert!(a.title == b.title);
    assert!(a.group == b.group);
    assert!(a.resolution == b.resolution);
    assert!(a.season == b.season);
    assert!(a.episode == b.episode);
    assert!(a.source == b.source);
    assert!(a.year == b.year);
    assert!(a.codec == b.codec);
    assert!(a.audio == b.audio);
    assert!(a.extension == b.extension);
    assert!(a.checksum == b.checksum);
    assert!(a.scene == b.scene);
    assert!(a.subs == b.subs);
    assert!(a.region == b.region);
}

#[test]
fn pattern_order_decides_overlap() {
    let plain = Pattern::compile("(100)").unwrap();
    let bounded = Pattern::compile("[^0-9A-Za-z]([0-9]{2,3})[^0-9A-Za-z]").unwrap();

    // plain first: it claims exactly "100", and the bounded pattern then
    // finds no fragment holding a delimited number
    let mut rope = Rope::new(b"A 100 B".to_vec());
    let v1 = parse_pattern(&mut rope, &plain);
    let v2 = parse_pattern(&mut rope, &bounded);
    assert!(v1 == Some(b"100".to_vec()));
    assert!(v2 == None);

    // bounded first: both win, and the claimed ranges differ
    let mut rope = Rope::new(b"A 100 B".to_vec());
    let w1 = parse_pattern(&mut rope, &bounded);
    let w2 = parse_pattern(&mut rope, &plain);
    assert!(w1 == Some(b"100".to_vec()));
    assert!(w2 == Some(b"100".to_vec()));
}

#[test]
fn title_absent_only_on_empty_partition() {
    // a non-empty filename always yields a title, even when everything
    // recognisable was claimed: the leftovers trim to the empty title
    let info = parse_filename("2015");
    assert!(info.year == Some(2015));
    assert!(info.title == Some(b"".to_vec()));

    let info = parse_filename("");
    assert!(info.title == Some(b"".to_vec()));

    let info = parse_filename("pure noise here");
    assert!(info.title == Some(b"pure noise here".to_vec()));

    // only a store with no fragments at all has no title: a path without
    // normal components contributes none
    let info = parse_path("");
    assert!(info.title == None);
    let info = parse_path("/");
    assert!(info.title == None);
}

#[test]
fn numeric_capture_edges() {
    assert!(parse_u32(&b"03".to_vec()) == Some(3));
    assert!(parse_u32(&b"4294967295".to_vec()) == Some(u32::MAX));
    assert!(parse_u32(&b"4294967296".to_vec()) == None);
    assert!(parse_u32(&b"".to_vec()) == None);
    assert!(parse_u32(&b"12a".to_vec()) == None);
    assert!(parse_u32(&b"0".to_vec()) == Some(0));
}

#[test]
fn title_trimming() {
    assert!(trim_delims(b"--[ Mr. Robot ]--".to_vec()) == b"Mr. Robot".to_vec());
    assert!(trim_delims(b"(()[]_-. )".to_vec()) == b"".to_vec());
    assert!(trim_delims(b"plain".to_vec()) == b"plain".to_vec());
    assert!(trim_delims(b"".to_vec()) == b"".to_vec());
}

#[test]
fn invalid_pattern_is_rejected_at_construction() {
    assert!(Pattern::compile("(unclosed").is_none());
    assert!(Pattern::compile("(ok)").is_some());
}
