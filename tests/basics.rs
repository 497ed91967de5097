use denote::{slugify, Denote, Extension, Identifier, Keywords, Signature, Title};

#[test]
fn format_test() {
    assert_eq!(slugify("Some title ", Some('-')), "some-title");
    assert_eq!(slugify("Some,keywords asd ", Some(',')), "some,keywords,asd");
    assert_eq!(slugify("empTy  separator", None), "emptyseparator");
    assert_eq!(slugify("ddDDDD  ,  lll", Some('=')), "dddddd=lll");
}

#[test]
fn identifier_find() {
    let text = "some random text 20240908T19063022 asd";
    let identifier = Identifier::parse(text).unwrap();
    assert_eq!(identifier.to_string(), "20240908T19063022");
}

#[test]
fn regex_regexp() {
    assert!(Denote::parse("test").is_none());
}

#[test]
fn name_scheme_regexp() {
    assert!(Denote::parse("20240101T00000000==a--b__c.d").is_some());
}

#[test]
fn tests_parse() {
    assert!(Signature::parse("").is_none());
    assert!(Title::parse("").is_none());
}

#[test]
fn tests_prase() {
    assert!(Keywords::parse_user_input("").is_none());
    assert!(Keywords::parse_schemed_string("").is_none());
}

#[test]
fn keywords_prase() {
    let rendered = |k: Option<Keywords>| k.map(|k| k.to_string()).unwrap_or_default();
    assert_eq!(rendered(Keywords::parse_user_input("")), "");
    assert_eq!(rendered(Keywords::parse_schemed_string("")), "");
}

#[test]
fn tests_test() {
    assert!(Extension::new("").is_none());
    assert!(Identifier::parse("").is_none());
}

#[test]
fn extention_test() {
    assert_eq!(Extension::new("ext").unwrap().to_string(), ".ext");
    let empty = Extension::new("").map(|e| e.to_string()).unwrap_or_default();
    assert_eq!(empty, "");
}

#[test]
fn tests_empty_input() {
    assert!(Signature::parse("").is_none());
    assert!(Title::parse("").is_none());
    assert!(Keywords::parse_user_input("").is_none());
    assert!(Keywords::parse_schemed_string("").is_none());
    assert!(Identifier::parse("").is_none());
    assert!(Extension::new("").is_none());
}

#[test]
fn extension() {
    let ext = Extension::new("txt").unwrap();
    assert_eq!(ext.to_string(), ".txt");
    let ext = Extension::new(".md").unwrap();
    assert_eq!(ext.to_string(), ".md");
}

#[test]
fn doc() {
    let identifier = Identifier::parse("20240912T13015412").unwrap();
    let denote = Denote::new(identifier)
        .title(Title::parse("Some title").unwrap())
        .signature(Signature::parse("1b").unwrap())
        .extension(Extension::new("txt").unwrap())
        .to_string();
    assert_eq!(denote, "20240912T13015412==1b--some-title.txt");
}
