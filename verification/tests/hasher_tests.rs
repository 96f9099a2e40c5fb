use idn45::hasher::HashFormat;
use idn45::IDN45;

fn hash(data: &[u8], salt: Option<&[u8]>, format: HashFormat) -> String {
    IDN45::new(Some(data), salt).hexdigest(format)
}

fn is_lower_hex(c: char) -> bool {
    matches!(c, '0'..='9' | 'a'..='f')
}

fn sample_inputs() -> Vec<Vec<u8>> {
    let mut inputs: Vec<Vec<u8>> = vec![
        Vec::new(),
        b"a".to_vec(),
        b"abc".to_vec(),
        b"hello world".to_vec(),
        vec![0u8; 134],
        vec![0u8; 135],
        vec![0u8; 136],
        vec![0u8; 137],
        vec![0xffu8; 1000],
    ];
    for n in 0..40u8 {
        inputs.push(vec![n, n.wrapping_mul(3), 7]);
    }
    inputs
}

#[test]
fn empty_input_without_salt_in_standard_format() {
    assert_eq!(
        hash(b"", None, HashFormat::Standard),
        "cf2e735124d87a43037af1c0ec3a3afb796cf8608873dcae55fb5de204cd10df"
    );
    assert_eq!(
        IDN45::new(None, None).hexdigest(HashFormat::Standard),
        "cf2e735124d87a43037af1c0ec3a3afb796cf8608873dcae55fb5de204cd10df"
    );
}

#[test]
fn empty_input_in_the_short_formats() {
    assert_eq!(hash(b"", None, HashFormat::Uuid), "IDN45-cf2e7351-24d87a43-037af1c0");
    assert_eq!(hash(b"", None, HashFormat::Short), "cf2e73512:4d");
}

#[test]
fn abc_with_salt_xyz_in_uuid_format() {
    let first = hash(b"abc", Some(b"xyz"), HashFormat::Uuid);
    let second = hash(b"abc", Some(b"xyz"), HashFormat::Uuid);
    assert_eq!(first, "IDN45-c9034a1e-ef8b309f-3b160bfc");
    assert_eq!(first, second);
}

#[test]
fn abc_with_salt_xyz_in_the_other_formats() {
    assert_eq!(
        hash(b"abc", Some(b"xyz"), HashFormat::Standard),
        "c9034a1eef8b309f3b160bfc7f13c7ddb07947c52bbc912b7f7445175711e761"
    );
    assert_eq!(hash(b"abc", Some(b"xyz"), HashFormat::Short), "c9:034a1eef8");
}

#[test]
fn known_hashes_of_short_inputs() {
    assert_eq!(
        hash(b"abc", None, HashFormat::Standard),
        "4252e8cb2f1e39cb6e8157b5448bf3948bb983eb0e0265f7aef7076f6e6693ac"
    );
    assert_eq!(
        hash(b"hello world", None, HashFormat::Standard),
        "62b0eec4422ce705dab68718f0f2ce8b0e313ecd5a952eaaf5887bd2e054cc5d"
    );
    assert_eq!(hash(b"hello world", None, HashFormat::Short), "62b:0eec4422");
}

#[test]
fn known_hashes_round_the_block_size() {
    assert_eq!(
        hash(&[b'a'; 134], None, HashFormat::Standard),
        "82d92eeae0452e5a47657c8bfa3ca1a3d784633f5c56c6adb969f13f1c8b2d96"
    );
    assert_eq!(
        hash(&[b'a'; 135], None, HashFormat::Standard),
        "5a562ebc89031b03fb79db2db10196ddde58d590ab4918f3208dd689c0cc105f"
    );
    assert_eq!(
        hash(&[b'a'; 136], None, HashFormat::Standard),
        "cf3f962d7fe3eaa9f59ad1097f643a2f5286abb0b2fccf97ede8aab5c79e9926"
    );
    assert_eq!(
        hash(&[b'a'; 137], None, HashFormat::Standard),
        "62f262e7bc7c855a581de9985f9b51314131b375aed43622de2f3664daf07baa"
    );
}

#[test]
fn known_hashes_of_a_long_salted_input() {
    let data = [b'a'; 300];
    assert_eq!(
        hash(&data, Some(b"pepper"), HashFormat::Standard),
        "dfe336278787af2c74c59c76a9d2c294190d7eac8d341369e34dd486f23f6dfa"
    );
    assert_eq!(hash(&data, Some(b"pepper"), HashFormat::Uuid), "IDN45-dfe33627-8787af2c-74c59c76");
    assert_eq!(hash(&data, Some(b"pepper"), HashFormat::Short), "dfe33627:878");
}

#[test]
fn hashing_twice_gives_the_same_text() {
    let salts: [Option<&[u8]>; 3] = [None, Some(b""), Some(b"salt")];
    for input in sample_inputs() {
        for salt in salts {
            for format in [HashFormat::Standard, HashFormat::Uuid, HashFormat::Short] {
                assert_eq!(hash(&input, salt, format), hash(&input, salt, format));
            }
        }
    }
}

#[test]
fn other_salt_gives_another_hash() {
    let with_xyz = hash(b"abc", Some(b"xyz"), HashFormat::Standard);
    let with_xyy = hash(b"abc", Some(b"xyy"), HashFormat::Standard);
    let without = hash(b"abc", None, HashFormat::Standard);
    assert_eq!(with_xyy, "7c8a243ff4b3f73c54a02ffe60606c5024fc8c71d89ce1a2fbe60b8f2311b21a");
    assert_ne!(with_xyz, with_xyy);
    assert_ne!(with_xyz, without);
    assert_ne!(with_xyy, without);
    assert_ne!(
        hash(b"abc", Some(b"xyz"), HashFormat::Uuid),
        hash(b"abc", Some(b"xyy"), HashFormat::Uuid)
    );
}

#[test]
fn salt_goes_in_before_the_data() {
    assert_eq!(
        hash(b"abc", Some(b"xyz"), HashFormat::Standard),
        hash(b"xyzabc", None, HashFormat::Standard)
    );
    assert_ne!(
        hash(b"abc", Some(b"xyz"), HashFormat::Standard),
        hash(b"abcxyz", None, HashFormat::Standard)
    );
    assert_ne!(
        hash(b"abc", Some(b"xyz"), HashFormat::Standard),
        hash(b"xyz", Some(b"abc"), HashFormat::Standard)
    );
}

#[test]
fn empty_salt_is_no_salt() {
    assert_eq!(
        hash(b"abc", Some(b""), HashFormat::Standard),
        hash(b"abc", None, HashFormat::Standard)
    );
}

#[test]
fn update_in_pieces_is_one_input() {
    let mut session = IDN45::new(None, Some(b"xyz"));
    session.update(b"a");
    session.update(b"");
    session.update(b"bc");
    assert_eq!(
        session.hexdigest(HashFormat::Standard),
        "c9034a1eef8b309f3b160bfc7f13c7ddb07947c52bbc912b7f7445175711e761"
    );

    let data = [b'a'; 300];
    let mut long = IDN45::new(Some(b"pepp"), None);
    long.update(b"er");
    long.update(&data[..100]);
    long.update(&data[100..]);
    assert_eq!(
        long.hexdigest(HashFormat::Standard),
        "dfe336278787af2c74c59c76a9d2c294190d7eac8d341369e34dd486f23f6dfa"
    );
}

#[test]
fn shorter_formats_show_the_start_of_the_standard_digest() {
    for input in sample_inputs() {
        let standard = hash(&input, None, HashFormat::Standard);
        let uuid = hash(&input, None, HashFormat::Uuid);
        let short = hash(&input, None, HashFormat::Short);
        let expected_uuid =
            format!("IDN45-{}-{}-{}", &standard[0..8], &standard[8..16], &standard[16..24]);
        assert_eq!(uuid, expected_uuid);
        let without_colon: String = short.chars().filter(|c| *c != ':').collect();
        assert_eq!(without_colon, standard[..11]);
    }
}

#[test]
fn standard_text_is_64_hex_digits() {
    for input in sample_inputs() {
        let text = hash(&input, Some(b"s"), HashFormat::Standard);
        assert_eq!(text.chars().count(), 64);
        assert!(text.chars().all(is_lower_hex));
    }
}

#[test]
fn uuid_text_is_the_prefix_and_three_groups() {
    for input in sample_inputs() {
        let text = hash(&input, Some(b"s"), HashFormat::Uuid);
        let chars: Vec<char> = text.chars().collect();
        assert_eq!(chars.len(), 32);
        assert_eq!(&text[..6], "IDN45-");
        for (i, c) in chars.iter().enumerate().skip(6) {
            if i == 14 || i == 23 {
                assert_eq!(*c, '-');
            } else {
                assert!(is_lower_hex(*c));
            }
        }
    }
}

#[test]
fn short_text_is_12_characters_with_one_colon() {
    let mut positions = Vec::new();
    for input in sample_inputs() {
        let text = hash(&input, Some(b"s"), HashFormat::Short);
        let chars: Vec<char> = text.chars().collect();
        assert_eq!(chars.len(), 12);
        let colons: Vec<usize> = (0..12).filter(|i| chars[*i] == ':').collect();
        assert_eq!(colons.len(), 1);
        assert!(1 <= colons[0] && colons[0] <= 11);
        for (i, c) in chars.iter().enumerate() {
            if i != colons[0] {
                assert!(is_lower_hex(*c));
            }
        }
        // the colon stands where the twelfth digit of the digest says
        let standard = hash(&input, Some(b"s"), HashFormat::Standard);
        let value = standard[11..12].chars().next().unwrap().to_digit(16).unwrap() as usize;
        assert_eq!(colons[0], 1 + value % 10);
        positions.push(colons[0]);
    }
    positions.sort();
    positions.dedup();
    assert!(positions.len() > 3);
}

#[test]
fn hash_format_is_plain_data() {
    let format = HashFormat::Uuid;
    let copy = format;
    assert_eq!(format, copy);
    assert_ne!(HashFormat::Standard, HashFormat::Short);
    assert_eq!(format!("{:?}", HashFormat::Short), "Short");
}
