use slackbot::query::{decode, decode_pairs, pairs_to_hashmap};

fn owned(pairs: &[(&str, &str)]) -> Vec<(String, String)> {
    pairs.iter().map(|(k, v)| (k.to_string(), v.to_string())).collect()
}

#[test]
fn decode_pairs_keeps_order_and_decodes_escapes() {
    let pairs = decode_pairs(b"text=greet+Alice&channel_name=gen%65ral&sym=%26%3D%2B");
    assert_eq!(
        pairs,
        owned(&[("text", "greet Alice"), ("channel_name", "general"), ("sym", "&=+")])
    );
}

#[test]
fn decode_pairs_drops_pieces_without_value_separator() {
    let pairs = decode_pairs(b"junk&a=1&more+junk&b=2&");
    assert_eq!(pairs, owned(&[("a", "1"), ("b", "2")]));
}

#[test]
fn decode_pairs_of_empty_body_is_empty() {
    assert_eq!(decode_pairs(b""), owned(&[]));
    assert_eq!(decode_pairs(b"&&&"), owned(&[]));
    assert_eq!(decode_pairs(b"novalue"), owned(&[]));
}

#[test]
fn decode_pairs_keeps_empty_names_and_values() {
    let pairs = decode_pairs(b"=v&k=&=&a=b=c");
    assert_eq!(pairs, owned(&[("", "v"), ("k", ""), ("", ""), ("a", "b=c")]));
}

#[test]
fn decode_pairs_replaces_invalid_utf8() {
    let pairs = decode_pairs(b"k=%FF");
    assert_eq!(pairs, owned(&[("k", "\u{FFFD}")]));
}

#[test]
fn pairs_to_hashmap_last_occurrence_wins() {
    let map = pairs_to_hashmap(owned(&[("a", "1"), ("b", "2"), ("a", "3")]));
    assert_eq!(map.len(), 2);
    assert_eq!(map.get("a"), Some(&"3".to_string()));
    assert_eq!(map.get("b"), Some(&"2".to_string()));
    assert_eq!(map.get("c"), None);
}

#[test]
fn pairs_to_hashmap_of_nothing_is_empty() {
    let map = pairs_to_hashmap(Vec::new());
    assert!(map.is_empty());
}

#[test]
fn decode_empty_body_gives_empty_mapping() {
    let fields = decode(b"");
    assert!(fields.is_empty());
    assert_eq!(fields.len(), 0);
}

#[test]
fn decode_duplicate_keys_last_wins() {
    let fields = decode(b"k=first&other=x&k=second");
    assert_eq!(fields.len(), 2);
    assert_eq!(fields.get("k"), Some(&"second".to_string()));
    assert_eq!(fields.get("other"), Some(&"x".to_string()));
}

#[test]
fn decode_malformed_piece_does_not_define_a_field() {
    let fields = decode(b"text&channel_name=general");
    assert_eq!(fields.len(), 1);
    assert!(!fields.contains_key("text"));
    assert_eq!(fields.get("channel_name"), Some(&"general".to_string()));
}
