use std::borrow::Borrow;
use std::cmp::Ordering;
use std::collections::hash_map::DefaultHasher;
use std::collections::HashMap;
use std::fmt::Write;
use std::hash::{Hash, Hasher};
use std::str::FromStr;

use string_wrapper::boundary::trim_to_boundary;
use string_wrapper::bytes::{copy_memory, same_bytes};
use string_wrapper::compare::compare_bytes;
use string_wrapper::encoding::{encode_char, encoded_len, starts_well_formed_utf8_sequence};
use string_wrapper::interchange::{decimal_text, decode, encode, expectation_text};
use string_wrapper::{Buffer, Error, OwnedBuffer, StringWrapper};

fn digest<T: Hash>(t: &T) -> u64 {
    let mut h = DefaultHasher::new();
    t.hash(&mut h);
    h.finish()
}

fn well_formed<T: Buffer>(s: &StringWrapper<T>) -> bool {
    s.len() <= s.capacity() && std::str::from_utf8(&s.buffer()[..s.len()]).is_ok()
}

#[test]
fn append_success() {
    let mut s = StringWrapper::new([0u8; 10]);
    assert_eq!(s.push_str("a"), Ok(()));
    assert_eq!(s.len(), 1);
    assert_eq!(s.extra_capacity(), 9);
    assert_eq!(&*s, "a");
    assert_eq!(s.push('é'), Ok(()));
    assert_eq!(s.len(), 3);
    assert_eq!(&*s, "aé");
    assert_eq!(s.buffer(), b"a\xC3\xA9\0\0\0\0\0\0\0");
}

#[test]
fn append_overflow_leaves_the_string_alone() {
    let mut s = StringWrapper::new(*b"..........");
    s.push_str("aé~~~_").unwrap();
    assert_eq!(s.len(), 7);
    assert_eq!(s.extra_capacity(), 3);
    let before = s.into_buffer();
    assert_eq!(s.push('🌠'), Err(Error::InsufficientLength { expected: 11, actual: 10 }));
    assert_eq!(&*s, "aé~~~_");
    assert_eq!(s.len(), 7);
    assert_eq!(s.into_buffer(), before);
}

#[test]
fn push_encodes_every_width() {
    let mut s = StringWrapper::new([0u8; 10]);
    assert_eq!(s.push('a'), Ok(()));
    assert_eq!(s.push('é'), Ok(()));
    assert_eq!(s.push('€'), Ok(()));
    assert_eq!(s.push('🌠'), Ok(()));
    assert_eq!(s.len(), 10);
    assert_eq!(s.buffer(), "aé€🌠".as_bytes());
    assert_eq!(&*s, "aé€🌠");
    assert_eq!(s.push('a'), Err(Error::InsufficientLength { expected: 11, actual: 10 }));
}

#[test]
fn push_str_reports_length_of_input_and_room() {
    let mut s = StringWrapper::new([0u8; 10]);
    s.push_str("1234567").unwrap();
    assert_eq!(s.push_str("abcd"), Err(Error::InsufficientLength { expected: 4, actual: 3 }));
    assert_eq!(&*s, "1234567");
    assert_eq!(s.push_str("abc"), Ok(()));
    assert_eq!(&*s, "1234567abc");
    assert_eq!(s.push_str(""), Ok(()));
    assert_eq!(s.push_str("x"), Err(Error::InsufficientLength { expected: 1, actual: 0 }));
}

#[test]
fn partial_append_trims_to_the_room() {
    let mut s = StringWrapper::new([0u8; 10]);
    s.push_str("aé~~~").unwrap();
    assert_eq!(s.len(), 6);
    assert_eq!(s.extra_capacity(), 4);
    assert_eq!(s.push_partial_str("hello"), Err(4));
    assert_eq!(&*s, "aé~~~hell");
    assert_eq!(s.len(), 10);
}

#[test]
fn partial_append_never_splits_a_scalar() {
    let mut s = StringWrapper::new([0u8; 10]);
    s.push_str("1234567").unwrap();
    assert_eq!(s.extra_capacity(), 3);
    assert_eq!(s.push_partial_str("_🌠"), Err(1));
    assert_eq!(&*s, "1234567_");
    assert_eq!(s.len(), 8);
    assert_eq!(s.push_partial_str("🌠"), Err(0));
    assert_eq!(&*s, "1234567_");
    assert_eq!(s.push_partial_str("é"), Ok(()));
    assert_eq!(&*s, "1234567_é");
    assert_eq!(s.push_partial_str(""), Ok(()));
}

#[test]
fn partial_append_stays_within_three_bytes_of_the_room() {
    let texts = ["🌠🌠🌠", "a🌠b🌠", "éééééé", "€€€€", "plain text", "é€🌠é€🌠"];
    for text in texts {
        for room in 0..text.len() {
            let mut s = StringWrapper::new(vec![0u8; room]);
            let pushed = s.push_partial_str(text).unwrap_err();
            assert!(pushed <= room);
            assert!(room - pushed <= 3);
            assert!(text.is_char_boundary(pushed));
            assert_eq!(&*s, &text[..pushed]);
            assert!((pushed + 1..=room).all(|j| !text.is_char_boundary(j)));
        }
    }
}

#[test]
fn trim_to_boundary_values() {
    assert_eq!(trim_to_boundary("hello", 4), 4);
    assert_eq!(trim_to_boundary("hello", 5), 5);
    assert_eq!(trim_to_boundary("hello", 9), 5);
    assert_eq!(trim_to_boundary("hello", 0), 0);
    assert_eq!(trim_to_boundary("", 0), 0);
    assert_eq!(trim_to_boundary("", 3), 0);
    assert_eq!(trim_to_boundary("_🌠", 0), 0);
    assert_eq!(trim_to_boundary("_🌠", 1), 1);
    assert_eq!(trim_to_boundary("_🌠", 2), 1);
    assert_eq!(trim_to_boundary("_🌠", 3), 1);
    assert_eq!(trim_to_boundary("_🌠", 4), 1);
    assert_eq!(trim_to_boundary("_🌠", 5), 5);
    assert_eq!(trim_to_boundary("🌠", 3), 0);
    assert_eq!(trim_to_boundary("ô!?", 3), 3);
    assert_eq!(trim_to_boundary("ô!?", 1), 0);
}

#[test]
fn truncate_on_boundaries() {
    let mut s = StringWrapper::new([0u8; 8]);
    s.push_str("aé€").unwrap();
    assert_eq!(s.len(), 6);
    // 2 lies inside the two bytes of the second scalar, 4 and 5 inside the third
    assert!(!starts_well_formed_utf8_sequence(s.buffer()[2]));
    assert!(!starts_well_formed_utf8_sequence(s.buffer()[4]));
    assert!(!starts_well_formed_utf8_sequence(s.buffer()[5]));
    assert!(!s.is_char_boundary(2));
    assert!(starts_well_formed_utf8_sequence(s.buffer()[3]));
    s.truncate(6);
    assert_eq!(&*s, "aé€");
    s.truncate(3);
    assert_eq!(&*s, "aé");
    assert_eq!(s.len(), 3);
    assert_eq!(s.capacity(), 8);
    assert_eq!(s.buffer(), "aé€\0\0".as_bytes());
    assert!(starts_well_formed_utf8_sequence(s.buffer()[1]));
    s.truncate(1);
    assert_eq!(&*s, "a");
    s.truncate(0);
    assert_eq!(&*s, "");
    assert!(s.is_empty());
}

#[test]
fn boundary_bytes() {
    for byte in 0..=255u8 {
        assert_eq!(starts_well_formed_utf8_sequence(byte), byte & 0xC0 != 0x80);
    }
    assert!(starts_well_formed_utf8_sequence(0x7F));
    assert!(!starts_well_formed_utf8_sequence(0x80));
    assert!(!starts_well_formed_utf8_sequence(0xBF));
    assert!(starts_well_formed_utf8_sequence(0xC0));
}

#[test]
fn strings_stay_well_formed() {
    let mut s = StringWrapper::new([0xFFu8; 12]);
    assert!(well_formed(&s));
    s.push_str("aé").unwrap();
    assert!(well_formed(&s));
    s.push('€').unwrap();
    assert!(well_formed(&s));
    let _ = s.push_partial_str("🌠🌠🌠");
    assert!(well_formed(&s));
    assert_eq!(&*s, "aé€🌠");
    assert!(s.push_str("toolong").is_err());
    assert!(well_formed(&s));
    assert!(s.push('🌠').is_err());
    assert!(well_formed(&s));
    s.truncate(6);
    assert!(well_formed(&s));
    assert_eq!(&*s, "aé€");
    s.extra_bytes_mut()[0] = 0xFF;
    assert!(well_formed(&s));
    assert_eq!(&*s, "aé€");
    assert!(s.write_str("123456").is_ok());
    assert!(well_formed(&s));
    assert!(s.write_str("7").is_err());
    assert!(well_formed(&s));
    assert_eq!(&*s, "aé€123456");
}

#[test]
fn equality_order_and_hash_ignore_storage() {
    let mut a = StringWrapper::new(vec![b'x'; 4]);
    let mut b = StringWrapper::new(vec![b'y'; 40]);
    assert_eq!(a, b);
    assert_eq!(a.cmp(&b), Ordering::Equal);
    assert_eq!(a.partial_cmp(&b), Some(Ordering::Equal));
    assert_eq!(digest(&a), digest(&b));
    a.push_str("aé").unwrap();
    assert_ne!(a, b);
    assert_eq!(a.cmp(&b), Ordering::Greater);
    assert_eq!(b.cmp(&a), Ordering::Less);
    b.push_str("aé").unwrap();
    assert_eq!(a, b);
    assert_eq!(a.cmp(&b), Ordering::Equal);
    assert_eq!(a.partial_cmp(&b), Some(Ordering::Equal));
    assert_eq!(digest(&a), digest(&b));
    assert_eq!(digest(&a), digest(&"aé"));
    b.push_str("z").unwrap();
    assert!(a < b);
    assert!(b > a);
    assert_ne!(digest(&a), digest(&b));
    b.truncate(3);
    assert_eq!(a, b);
    assert_eq!(digest(&a), digest(&b));
}

#[test]
fn order_is_that_of_str() {
    let texts = ["", "a", "aa", "ab", "b", "é", "z", "€", "🌠", "a🌠", "aé", "ba"];
    for x in texts {
        for y in texts {
            let a: StringWrapper<[u8; 8]> = StringWrapper::from_str(x).unwrap();
            let b: StringWrapper<[u8; 8]> = StringWrapper::from_str(y).unwrap();
            assert_eq!(a.cmp(&b), x.cmp(y));
            assert_eq!(a.partial_cmp(&b), x.partial_cmp(y));
            assert_eq!(a == b, x == y);
            assert_eq!(compare_bytes(x.as_bytes(), y.as_bytes()), x.cmp(y));
            assert_eq!(same_bytes(x.as_bytes(), y.as_bytes()), x == y);
        }
    }
    assert_eq!(compare_bytes(b"", b""), Ordering::Equal);
    assert_eq!(compare_bytes(b"", b"a"), Ordering::Less);
    assert_eq!(compare_bytes(b"a", b""), Ordering::Greater);
    assert_eq!(compare_bytes(b"ab", b"b"), Ordering::Less);
    assert_eq!(compare_bytes(b"\xff", b"\x00\x00"), Ordering::Greater);
}

#[test]
fn borrowed_as_str_in_a_map() {
    let mut map: HashMap<StringWrapper<[u8; 8]>, u32> = HashMap::new();
    map.insert(StringWrapper::from_str("one").unwrap(), 1);
    map.insert(StringWrapper::from_str("two").unwrap(), 2);
    assert_eq!(map.get("one"), Some(&1));
    assert_eq!(map.get("two"), Some(&2));
    assert_eq!(map.get("three"), None);
    let s: StringWrapper<[u8; 8]> = StringWrapper::from_str("one").unwrap();
    let text: &str = s.borrow();
    assert_eq!(text, "one");
}

#[test]
fn from_str_fits_or_fails() {
    let whole: StringWrapper<[u8; 6]> = StringWrapper::from_str("aé€").unwrap();
    assert_eq!(&*whole, "aé€");
    assert_eq!(whole.len(), 6);
    assert_eq!(whole.capacity(), 6);
    let short: Result<StringWrapper<[u8; 4]>, Error> = StringWrapper::from_str("aé€");
    assert_eq!(short.unwrap_err(), Error::InsufficientLength { expected: 6, actual: 4 });
    let none: Result<StringWrapper<[u8; 0]>, Error> = StringWrapper::from_str("a");
    assert_eq!(none.unwrap_err(), Error::InsufficientLength { expected: 1, actual: 0 });
    let empty: StringWrapper<[u8; 0]> = StringWrapper::from_str("").unwrap();
    assert_eq!(&*empty, "");
}

#[test]
fn from_str_safe_keeps_what_fits() {
    let whole: Option<StringWrapper<[u8; 3]>> = StringWrapper::from_str_safe("foo");
    assert_eq!(format!("{}", whole.unwrap()), "foo");
    let cut: Option<StringWrapper<[u8; 3]>> = StringWrapper::from_str_safe("foobar");
    assert_eq!(&*cut.unwrap(), "foo");
    let on_boundary: Option<StringWrapper<[u8; 4]>> = StringWrapper::from_str_safe("aé€");
    assert_eq!(&*on_boundary.unwrap(), "aé");
    let nothing: Option<StringWrapper<[u8; 0]>> = StringWrapper::from_str_safe("foo");
    let nothing = nothing.unwrap();
    assert_eq!(&*nothing, "");
    assert_eq!(nothing.len(), 0);
    let too_wide: Option<StringWrapper<[u8; 3]>> = StringWrapper::from_str_safe("🌠");
    assert_eq!(&*too_wide.unwrap(), "");
}

#[test]
fn round_trip_through_text() {
    let mut s = StringWrapper::new([7u8; 8]);
    s.push_str("aé€").unwrap();
    let text = encode(&s);
    assert_eq!(text, "aé€");
    let same: StringWrapper<[u8; 8]> = decode(&text).unwrap();
    assert_eq!(same, s);
    let larger: StringWrapper<[u8; 64]> = decode(&text).unwrap();
    assert_eq!(&*larger, &*s);
    assert_eq!(larger.len(), s.len());
    let exact: StringWrapper<[u8; 6]> = decode(&text).unwrap();
    assert_eq!(&*exact, "aé€");
    let refused = decode::<[u8; 5]>(&text).unwrap_err();
    assert_eq!(refused.length, 6);
    assert_eq!(refused.expected, "string that can fit into 5 bytes");
    let json = serde_json::to_string(&text).unwrap();
    let back: String = serde_json::from_str(&json).unwrap();
    let again: StringWrapper<[u8; 8]> = decode(&back).unwrap();
    assert_eq!(again, s);
}

#[test]
fn numbers_in_words() {
    assert_eq!(decimal_text(0), "0");
    assert_eq!(decimal_text(7), "7");
    assert_eq!(decimal_text(9), "9");
    assert_eq!(decimal_text(10), "10");
    assert_eq!(decimal_text(109), "109");
    assert_eq!(decimal_text(12345), "12345");
    assert_eq!(decimal_text(usize::MAX), usize::MAX.to_string());
    assert_eq!(expectation_text(3), "string that can fit into 3 bytes");
    assert_eq!(expectation_text(0), "string that can fit into 0 bytes");
    assert_eq!(expectation_text(1024), "string that can fit into 1024 bytes");
}

#[test]
fn encoding_is_that_of_std() {
    let mut code: u32 = 0;
    while code <= 0x10FFFF {
        if let Some(c) = char::from_u32(code) {
            let mut ours = [0xAAu8; 6];
            let mut theirs = [0xAAu8; 6];
            let n = encode_char(c, &mut ours);
            let m = c.encode_utf8(&mut theirs).len();
            assert_eq!(n, m);
            assert_eq!(encoded_len(c), c.len_utf8());
            assert_eq!(ours, theirs);
            assert_eq!(&ours[n..], &[0xAAu8; 6][n..]);
        }
        code += 1;
    }
    let mut exact = [0u8; 3];
    assert_eq!(encode_char('€', &mut exact), 3);
    assert_eq!(exact, [0xE2, 0x82, 0xAC]);
    assert_eq!(encoded_len('a'), 1);
    assert_eq!(encoded_len('é'), 2);
    assert_eq!(encoded_len('€'), 3);
    assert_eq!(encoded_len('🌠'), 4);
}

#[test]
fn copy_keeps_the_rest() {
    let mut dst = *b"abcdef";
    copy_memory(b"xyz", &mut dst);
    assert_eq!(&dst, b"xyzdef");
    copy_memory(b"", &mut dst);
    assert_eq!(&dst, b"xyzdef");
    copy_memory(b"123456", &mut dst);
    assert_eq!(&dst, b"123456");
    assert!(same_bytes(b"", b""));
    assert!(same_bytes(b"abc", b"abc"));
    assert!(!same_bytes(b"abc", b"abd"));
    assert!(!same_bytes(b"abc", b"ab"));
}

#[test]
fn any_buffer_will_do() {
    let mut vector = StringWrapper::new(vec![0u8; 5]);
    vector.push_str("vec").unwrap();
    assert_eq!(&*vector, "vec");
    assert_eq!(vector.capacity(), 5);
    assert_eq!(vector.into_buffer(), b"vec\0\0".to_vec());

    let mut boxed = StringWrapper::new(vec![0u8; 5].into_boxed_slice());
    boxed.push_str("box").unwrap();
    assert_eq!(&*boxed, "box");
    assert_eq!(boxed.extra_capacity(), 2);

    let mut bytes = [0u8; 5];
    {
        let mut borrowed = StringWrapper::new(&mut bytes[..]);
        borrowed.push_str("ref").unwrap();
        assert_eq!(&*borrowed, "ref");
        assert_eq!(borrowed.push_str("abc"), Err(Error::InsufficientLength { expected: 3, actual: 2 }));
    }
    assert_eq!(&bytes, b"ref\0\0");

    let mut array = [0u8; 4];
    {
        let mut borrowed = StringWrapper::new(&mut array);
        assert_eq!(borrowed.push_partial_str("arrays"), Err(4));
    }
    assert_eq!(&array, b"arra");

    let fresh = <[u8; 7] as OwnedBuffer>::new();
    assert_eq!(fresh, [0u8; 7]);
    assert_eq!(Buffer::as_ref(&fresh).len(), 7);
    let mut other = [1u8, 2, 3];
    Buffer::as_mut(&mut other)[1] = 9;
    assert_eq!(Buffer::as_ref(&other), &[1u8, 9, 3]);
}

#[test]
fn raw_parts_and_lengths() {
    let s = StringWrapper::from_raw_parts(*b"hello, world", 5);
    assert_eq!(&*s, "hello");
    assert_eq!(s.len(), 5);
    assert_eq!(s.capacity(), 12);
    assert_eq!(s.buffer(), b"hello, world");
    assert_eq!(s.as_bytes(), b"hello");
    assert!(!s.is_empty());

    let mut s = s;
    s.set_len(12);
    assert_eq!(&*s, "hello, world");
    assert_eq!(s.extra_capacity(), 0);
    s.set_len(0);
    assert!(s.is_empty());
    assert_eq!(s.buffer(), b"hello, world");

    s.buffer_mut()[..2].copy_from_slice(b"J'");
    s.set_len(5);
    assert_eq!(&*s, "J'llo");

    s.extra_bytes_mut()[..2].copy_from_slice(b"!!");
    assert_eq!(&*s, "J'llo");
    assert_eq!(s.extra_bytes_mut().len(), 7);
    s.set_len(7);
    assert_eq!(&*s, "J'llo!!");
}

#[test]
fn default_is_empty() {
    let s: StringWrapper<[u8; 4]> = StringWrapper::default();
    assert!(s.is_empty());
    assert_eq!(s.capacity(), 4);
    assert_eq!(&*s, "");
    let v: StringWrapper<Vec<u8>> = StringWrapper::default();
    assert_eq!(v.capacity(), 0);
    assert_eq!(&*v, "");
}

#[test]
fn write_str_all_or_nothing() {
    let mut s = StringWrapper::new([0u8; 4]);
    assert!(s.write_str("ab").is_ok());
    assert!(s.write_str("cde").is_err());
    assert_eq!(&*s, "ab");
    assert_eq!(s.buffer(), b"ab\0\0");
    assert!(s.write_char('é').is_ok());
    assert_eq!(&*s, "abé");
    assert!(s.write_char('!').is_err());
    assert_eq!(&*s, "abé");
}

#[test]
fn renders_only_the_text() {
    let mut s = StringWrapper::new(*b"stale bytes!");
    assert_eq!(s.to_string(), "");
    assert_eq!(format!("{:?}", s), "\"\"");
    s.push_str("a\n\"é").unwrap();
    assert_eq!(s.to_string(), "a\n\"é");
    assert_eq!(format!("{}", s), "a\n\"é");
    assert_eq!(format!("{:?}", s), "\"a\\n\\\"é\"");
    assert_eq!(format!("{:>8}", s), "    a\n\"é");
}

#[test]
fn text_can_change_in_place() {
    let mut s = StringWrapper::new(*b"........");
    s.push_str("aé-b").unwrap();
    s.make_ascii_uppercase();
    assert_eq!(&*s, "Aé-B");
    assert_eq!(s.len(), 5);
    assert_eq!(s.buffer(), "Aé-B...".as_bytes());
    let text: &mut str = &mut s;
    text.make_ascii_lowercase();
    assert_eq!(&*s, "aé-b");
}
