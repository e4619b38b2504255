use osm2rdf::rdf::push_tag;

fn tag_bytes(key: &[u8], value: &[u8]) -> Vec<u8> {
    let mut out: Vec<u8> = Vec::new();
    push_tag(&mut out, &key.to_vec(), &value.to_vec());
    out
}

#[test]
fn plain_tag_is_quoted_string() {
    assert_eq!(tag_bytes(b"name", b"London"), b"osmt:name \"London\";\n".to_vec());
}

#[test]
fn wikidata_value_unquoted() {
    assert_eq!(tag_bytes(b"wikidata", b"Q42"), b"osmt:wikidata wd:Q42;\n".to_vec());
}

#[test]
fn wikidata_prefixed_key_matches_too() {
    assert_eq!(tag_bytes(b"brand:wikidata", b"Q9"), b"osmt:brand:wikidata wd:Q9;\n".to_vec());
}

#[test]
fn wikidata_multi_value_comma_list() {
    assert_eq!(
        tag_bytes(b"wikidata", b"Q1;Q22;Q333"),
        b"osmt:wikidata wd:Q1,wd:Q22,wd:Q333;\n".to_vec()
    );
}

#[test]
fn wikidata_bad_value_falls_back_to_string() {
    assert_eq!(tag_bytes(b"wikidata", b"Q0"), b"osmt:wikidata \"Q0\";\n".to_vec());
    assert_eq!(tag_bytes(b"wikidata", b"hello"), b"osmt:wikidata \"hello\";\n".to_vec());
}

#[test]
fn bad_key_becomes_badkey_statement() {
    assert_eq!(
        tag_bytes("café".as_bytes(), "café".as_bytes()),
        "osmm:badkey \"café\";\n".as_bytes().to_vec()
    );
}

#[test]
fn overlong_key_becomes_badkey_statement() {
    let long_key = vec![b'a'; 61];
    assert_eq!(tag_bytes(&long_key, b"v"), b"osmm:badkey \"v\";\n".to_vec());
}

#[test]
fn wikipedia_value_becomes_url() {
    assert_eq!(
        tag_bytes(b"wikipedia", b"en:Foo Bar"),
        b"osmt:wikipedia <https://en.wikipedia.org/wiki/Foo_Bar>;\n".to_vec()
    );
}

#[test]
fn wikipedia_url_percent_encodes_reserved_characters() {
    assert_eq!(
        tag_bytes(b"wikipedia", b"en:A B;C/D:E#F"),
        b"osmt:wikipedia <https://en.wikipedia.org/wiki/A_B%3BC%2FD%3AE%23F>;\n".to_vec()
    );
}

#[test]
fn wikipedia_without_language_is_quoted() {
    assert_eq!(tag_bytes(b"wikipedia", b"NoColonHere"), b"osmt:wikipedia \"NoColonHere\";\n".to_vec());
}

#[test]
fn quoted_string_escapes_json_characters() {
    assert_eq!(
        tag_bytes(b"note", b"a\"b\\c\nd\x01"),
        b"osmt:note \"a\\\"b\\\\c\\nd\\u0001\";\n".to_vec()
    );
}
