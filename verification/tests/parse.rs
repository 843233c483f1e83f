use mediainfo::{parse_filename, parse_path};

#[test]
fn test_parse_filename() {
    let info = parse_filename("[HorribleSubs] Mayoiga - 03 [720p].mkv");
    assert!(info.group == Some(b"HorribleSubs".to_vec()));
    assert!(info.episode == Some(3));
    assert!(info.resolution == Some(b"720p".to_vec()));
    assert!(info.title == Some(b"Mayoiga".to_vec()));

    let info = parse_filename("Game of Thrones Season 6 S06E05 720p Web Dl x264 Mrlss");
    assert!(info.title == Some(b"Game of Thrones".to_vec()));
    assert!(info.season == Some(6));
    assert!(info.episode == Some(5));
    assert!(info.resolution == Some(b"720p".to_vec()));
    assert!(info.source == Some(b"Web Dl".to_vec()));
    assert!(info.codec == Some(b"x264".to_vec()));

    let info = parse_filename("The Ones Below 2015 HDRip XViD-ETRG");
    assert!(info.title == Some(b"The Ones Below".to_vec()));
    assert!(info.source == Some(b"HDRip".to_vec()));
    assert!(info.group == Some(b"ETRG".to_vec()));
    assert!(info.year == Some(2015));
    assert!(info.codec == Some(b"XViD".to_vec()));

    let info = parse_filename("Mega Movie (BD 1280x720 10bit)");
    assert!(info.title == Some(b"Mega Movie".to_vec()));
    assert!(info.source == Some(b"BD".to_vec()));
    assert!(info.resolution == Some(b"1280x720".to_vec()));

    let info = parse_filename("[RightShiftBy2] Akagami no Shirayuki-hime - 15 [720p][6860573F].mp4");
    assert!(info.title == Some(b"Akagami no Shirayuki-hime".to_vec()));
    assert!(info.group == Some(b"RightShiftBy2".to_vec()));
    assert!(info.episode == Some(15));
    assert!(info.resolution == Some(b"720p".to_vec()));
    assert!(info.checksum == Some(b"6860573F".to_vec()));
    assert!(info.extension == Some(b"mp4".to_vec()));
}

#[test]
fn test_parse_path() {
    let info = parse_path("Season 1/Mr. Robot - e03 - Episode Title.mp4");
    assert!(info.title == Some(b"Mr. Robot".to_vec()));
    assert!(info.season == Some(1));
    assert!(info.episode == Some(3));
    assert!(info.extension == Some(b"mp4".to_vec()));
}

#[test]
fn parse_path_skips_non_normal_components() {
    let with_noise = parse_path("/./shows/../Season 1/Mr. Robot - e03 - Episode Title.mp4");
    assert!(with_noise.title == Some(b"Mr. Robot".to_vec()));
    assert!(with_noise.season == Some(1));
    assert!(with_noise.episode == Some(3));
    assert!(with_noise.extension == Some(b"mp4".to_vec()));
}

#[test]
fn more_categories_extracted() {
    let info = parse_filename("Show 2001 UNSUBBED R5 MP3");
    assert!(info.title == Some(b"Show".to_vec()));
    assert!(info.year == Some(2001));
    assert!(info.audio == Some(b"MP3".to_vec()));
    assert!(info.subs == Some(b"UNSUBBED".to_vec()));
    assert!(info.region == Some(b"R5".to_vec()));
    assert!(info.season == None);
    assert!(info.episode == None);
}

#[test]
fn scene_tag_extracted() {
    let info = parse_filename("Movie PROPER 720p");
    assert!(info.scene == Some(b"PROPER".to_vec()));
    assert!(info.resolution == Some(b"720p".to_vec()));
    assert!(info.title == Some(b"Movie".to_vec()));
}
