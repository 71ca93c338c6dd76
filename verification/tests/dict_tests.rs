use avcodec::dict::{
    AVDictionary, AV_DICT_APPEND, AV_DICT_DONT_OVERWRITE, AV_DICT_MATCH_CASE, AV_DICT_MULTIKEY,
};
use avcodec::errors::AVERROR_EINVAL;

#[test]
fn dictionary() {
    let mut dict = AVDictionary::new();
    let key = b"preset";
    let value = b"p6";
    dict.set(key, value, 0).expect("Something went wrong");
    let parsed = dict.get_string(b':', b' ').expect("unable to get string repr");
    let mut dict = AVDictionary::new();
    dict.parse_str(&parsed, b":", b" ", 0).expect("unable to parse string");
    assert_eq!(dict.get_string(b':', b' ').unwrap(), b"preset:p6".to_vec());
}

#[test]
fn dict_round_trip_multi_entry() {
    let mut d = AVDictionary::new();
    d.set(b"preset", b"p6", 0).unwrap();
    d.set(b"rc", b"vbr", 0).unwrap();
    d.set(b"gpu", b"0", 0).unwrap();
    let text = d.get_string(b'=', b',').unwrap();
    assert_eq!(text, b"preset=p6,rc=vbr,gpu=0".to_vec());
    let mut back = AVDictionary::new();
    back.parse_str(&text, b"=", b",", AV_DICT_MULTIKEY).unwrap();
    assert_eq!(back.get_string(b'=', b',').unwrap(), text);
    let e = back.get(b"rc", None, 0).unwrap();
    assert_eq!(e.val, b"vbr".to_vec());
}

#[test]
fn dict_set_overwrites_by_default() {
    let mut d = AVDictionary::new();
    d.set(b"preset", b"p1", 0).unwrap();
    d.set(b"preset", b"p7", 0).unwrap();
    assert_eq!(d.len(), 1);
    assert_eq!(d.get(b"preset", None, 0).unwrap().val, b"p7".to_vec());
}

#[test]
fn dict_dont_overwrite_keeps_first_value() {
    let mut d = AVDictionary::new();
    d.set(b"preset", b"p1", 0).unwrap();
    d.set(b"preset", b"p7", AV_DICT_DONT_OVERWRITE).unwrap();
    assert_eq!(d.get(b"preset", None, 0).unwrap().val, b"p1".to_vec());
}

#[test]
fn dict_append_concatenates_values() {
    let mut d = AVDictionary::new();
    d.set(b"opts", b"a", 0).unwrap();
    d.set(b"opts", b"b", AV_DICT_APPEND).unwrap();
    assert_eq!(d.get(b"opts", None, 0).unwrap().val, b"ab".to_vec());
}

#[test]
fn dict_multikey_keeps_both_entries() {
    let mut d = AVDictionary::new();
    d.set(b"k", b"1", 0).unwrap();
    d.set(b"k", b"2", AV_DICT_MULTIKEY).unwrap();
    assert_eq!(d.len(), 2);
    let first = d.get(b"k", None, 0).unwrap();
    assert_eq!(first.val, b"1".to_vec());
    let second = d.get(b"k", Some(&first), 0).unwrap();
    assert_eq!(second.val, b"2".to_vec());
    assert!(d.get(b"k", Some(&second), 0).is_none());
}

#[test]
fn dict_lookup_is_case_insensitive_by_default() {
    let mut d = AVDictionary::new();
    d.set(b"Preset", b"p6", 0).unwrap();
    assert!(d.get(b"preset", None, 0).is_some());
    assert!(d.get(b"preset", None, AV_DICT_MATCH_CASE).is_none());
    assert!(d.get(b"Preset", None, AV_DICT_MATCH_CASE).is_some());
}

#[test]
fn dict_set_int_formats_decimal() {
    let mut d = AVDictionary::new();
    d.set_int(b"bitrate", 2500000, 0).unwrap();
    d.set_int(b"offset", -1234, 0).unwrap();
    d.set_int(b"min", i64::MIN, 0).unwrap();
    d.set_int(b"zero", 0, 0).unwrap();
    assert_eq!(d.get(b"bitrate", None, 0).unwrap().val, b"2500000".to_vec());
    assert_eq!(d.get(b"offset", None, 0).unwrap().val, b"-1234".to_vec());
    assert_eq!(d.get(b"min", None, 0).unwrap().val, b"-9223372036854775808".to_vec());
    assert_eq!(d.get(b"zero", None, 0).unwrap().val, b"0".to_vec());
}

#[test]
fn dict_rejects_nul_bytes() {
    let mut d = AVDictionary::new();
    assert_eq!(d.set(b"a\0b", b"v", 0), Err(AVERROR_EINVAL));
    assert_eq!(d.set(b"k", b"v\0", 0), Err(AVERROR_EINVAL));
    assert_eq!(d.set_int(b"k\0", 1, 0), Err(AVERROR_EINVAL));
    assert_eq!(d.parse_str(b"a=1\0", b"=", b",", 0), Err(AVERROR_EINVAL));
    assert_eq!(d.len(), 0);
}

#[test]
fn dict_parse_rejects_multi_character_separators() {
    let mut d = AVDictionary::new();
    assert_eq!(d.parse_str(b"a=1,b=2", b"==", b",", 0), Err(AVERROR_EINVAL));
    assert_eq!(d.parse_str(b"a=1,b=2", b"=", b",;", 0), Err(AVERROR_EINVAL));
    assert_eq!(d.parse_str(b"a=1,b=2", b"", b",", 0), Err(AVERROR_EINVAL));
    assert_eq!(d.parse_str(b"a=1,b=2", b"=", b"\0", 0), Err(AVERROR_EINVAL));
    assert_eq!(d.len(), 0);
    d.parse_str(b"a=1,b=2", b"=", b",", 0).unwrap();
    assert_eq!(d.len(), 2);
}

#[test]
fn dict_get_string_rejects_bad_separators() {
    let mut d = AVDictionary::new();
    d.set(b"k", b"v", 0).unwrap();
    assert_eq!(d.get_string(b':', b':'), Err(AVERROR_EINVAL));
    assert_eq!(d.get_string(0, b' '), Err(AVERROR_EINVAL));
    assert_eq!(d.get_string(b':', 0), Err(AVERROR_EINVAL));
}

#[test]
fn dict_empty_renders_empty() {
    let d = AVDictionary::new();
    assert_eq!(d.get_string(b'=', b',').unwrap(), Vec::<u8>::new());
    let mut p = AVDictionary::new();
    p.parse_str(b"", b"=", b",", 0).unwrap();
    assert_eq!(p.len(), 0);
}

#[test]
fn dict_parse_value_without_separator_is_empty() {
    let mut d = AVDictionary::new();
    d.parse_str(b"flag,k=v", b"=", b",", 0).unwrap();
    assert_eq!(d.get(b"flag", None, 0).unwrap().val, Vec::<u8>::new());
    assert_eq!(d.get(b"k", None, 0).unwrap().val, b"v".to_vec());
}

#[test]
fn dict_copy_reproduces_entries() {
    let mut d = AVDictionary::new();
    d.set(b"a", b"1", 0).unwrap();
    d.set(b"b", b"2", 0).unwrap();
    let c = d.copy(AV_DICT_MULTIKEY).unwrap();
    assert_eq!(c.get_string(b'=', b',').unwrap(), b"a=1,b=2".to_vec());
}
