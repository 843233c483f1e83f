use mediainfo::rope::{Part, Rope};

#[test]
fn rope_split_part() {
    let mut rope = Rope::new(b"test rope split part".to_vec());
    rope.split_part(0, 3);
    rope.split_part(1, 9);
    rope.split_part(1, 4);

    let expected = vec![
        Part::new(b"tes".to_vec(), false),
        Part::new(b"t ro".to_vec(), false),
        Part::new(b"pe sp".to_vec(), false),
        Part::new(b"lit part".to_vec(), false),
    ];
    assert!(rope.iter() == &expected);
}

#[test]
fn rope_mark() {
    let mut rope = Rope::new(b"test rope mark".to_vec());
    rope.split_part(0, 7);
    rope.mark_part(1);

    let expected = vec![
        Part::new(b"test ro".to_vec(), false),
        Part::new(b"pe mark".to_vec(), true),
    ];
    assert!(rope.iter() == &expected);
}

#[test]
fn rope_append_and_claim_range() {
    let mut rope = Rope::empty();
    assert!(rope.len() == 0);
    rope.append(b"one".to_vec());
    rope.append(b"two three".to_vec());
    assert!(rope.len() == 2);

    rope.mark_part_range(1, 4..9);
    let expected = vec![
        Part::new(b"one".to_vec(), false),
        Part::new(b"two ".to_vec(), false),
        Part::new(b"three".to_vec(), true),
        Part::new(b"".to_vec(), false),
    ];
    assert!(rope.iter() == &expected);

    let free: Vec<Part> = rope.unmarked();
    let expected_free = vec![
        Part::new(b"one".to_vec(), false),
        Part::new(b"two ".to_vec(), false),
        Part::new(b"".to_vec(), false),
    ];
    assert!(free == expected_free);
}
