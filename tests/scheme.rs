use denote::{
    first_letter_uppercase, slugify, unic_id, Answer, Date, Denote, Extension, Identifier,
    Keywords, Signature, Timestamp, Title,
};

fn clock() -> Timestamp {
    Timestamp {
        date: Date { year: 2024, month: 9, day: 1 },
        hour: 8,
        minute: 30,
        second: 42,
        nanosecond: 123_456_789,
    }
}

#[test]
fn parse_and_render_full_name() {
    let name = "20240912T13015412==1b--some-title.txt";
    let d = Denote::parse(name).unwrap();
    assert_eq!(d.identifier.to_string(), "20240912T13015412");
    assert_eq!(d.signature.as_ref().unwrap().to_string(), "==1b");
    assert_eq!(d.title.as_ref().unwrap().to_string(), "--some-title");
    assert!(d.keywords.is_none());
    assert_eq!(d.extension.as_ref().unwrap().to_string(), ".txt");
    assert_eq!(d.to_string(), name);
}

#[test]
fn replace_title_and_render() {
    let mut d = Denote::from_path("20240903T13173023--title__keyword.txt").unwrap();
    d.title = Title::parse("Another title");
    assert_eq!(d.to_string(), "20240903T13173023--another-title__keyword.txt");
}

#[test]
fn comma_separated_keywords() {
    let k = Keywords::parse_user_input("word1,word2, word 3 ").unwrap();
    assert_eq!(k.to_string(), "__word1_word2_word3");
}

#[test]
fn title_normalized() {
    assert_eq!(Title::parse(",Some  title ").unwrap().to_string(), "--some-title");
    assert_eq!(Title::parse("some-title").unwrap().to_string(), "--some-title");
}

#[test]
fn absent_signature_not_rendered() {
    assert!(Signature::parse("").is_none());
    let id = Identifier::parse("20240101T00000000").unwrap();
    let mut d = Denote::new(id);
    d.title(Title::parse("x").unwrap());
    assert_eq!(d.to_string(), "20240101T00000000--x");
    assert!(!d.to_string().contains("=="));
}

#[test]
fn identifier_now_token() {
    let id = Identifier::parse("now").unwrap().to_string();
    let chars: Vec<char> = id.chars().collect();
    assert_eq!(chars.len(), 17);
    for (i, c) in chars.iter().enumerate() {
        if i == 8 {
            assert_eq!(*c, 'T');
        } else {
            assert!(c.is_ascii_digit());
        }
    }
}

#[test]
fn normalize_twice_is_same() {
    for (text, sep) in [
        ("  Hello,, World!! ", Some('-')),
        ("a==b  c", Some('=')),
        ("Grüße Straße", Some('-')),
        ("x y z", None),
        ("--", Some('-')),
    ] {
        let once = slugify(text, sep);
        assert_eq!(slugify(&once, sep), once);
    }
}

#[test]
fn round_trip_of_canonical_record() {
    let id = Identifier::parse("20230102T03040506").unwrap();
    let mut d = Denote::new(id);
    d.signature(Signature::parse("a=1").unwrap())
        .title(Title::parse("my-notes").unwrap())
        .keywords(Keywords::parse_user_input("rust,verus").unwrap())
        .extension(Extension::new("md").unwrap());
    let back = Denote::parse(&d.to_string()).unwrap();
    assert_eq!(back, d);
    assert_eq!(back.to_string(), "20230102T03040506==a=1--my-notes__rust_verus.md");
}

#[test]
fn punctuation_only_is_absent() {
    for text in ["", "   ", "-=_.,;*()", " ,, "] {
        assert!(Signature::parse(text).is_none());
        assert!(Title::parse(text).is_none());
        assert!(Keywords::parse_user_input(text).is_none());
        assert!(Keywords::parse_schemed_string(text).is_none());
    }
}

#[test]
fn parse_never_fails_loudly() {
    for name in ["", "x", "20240101T0000000", "20240101T00000000==", "20240101T00000000.", "☃"] {
        assert!(Denote::parse(name).is_none());
    }
    assert!(Denote::parse("20240101T00000000").is_some());
}

#[test]
fn keywords_before_title_not_both() {
    let r = Denote::parse("20240101T00000000__kw--title");
    assert!(r.map_or(true, |d| d.title.is_none() || d.keywords.is_none()));
    let d = Denote::parse("20240101T00000000--title__kw").unwrap();
    assert!(d.title.is_some() && d.keywords.is_some());
}

#[test]
fn empty_signature_slot_rejects_name() {
    assert!(Denote::parse("20240101T00000000==--title").is_none());
}

#[test]
fn parse_renormalizes_groups() {
    let d = Denote::parse("20240101T00000000--Big-TITLE__One_Two.TXT").unwrap();
    assert_eq!(d.to_string(), "20240101T00000000--big-title__one_two.TXT");
}

#[test]
fn schemed_keywords() {
    let k = Keywords::parse_schemed_string("word1_wor d2_").unwrap();
    assert_eq!(k.to_string(), "__word1_word2");
}

#[test]
fn signature_words() {
    assert_eq!(Signature::parse("1b 2b=3c").unwrap().to_string(), "==1b=2b=3c");
}

#[test]
fn unicode_letters_lowercased() {
    assert_eq!(Title::parse("ÄPFEL Über").unwrap().to_string(), "--äpfel-über");
    assert_eq!(slugify("Ⅻ ½", Some('-')), "ⅻ-½");
}

#[test]
fn desluggify_title() {
    assert_eq!(Title::parse(" some Title").unwrap().desluggify(), "Some title");
    assert_eq!(Title::parse("élan vital").unwrap().desluggify(), "Élan vital");
}

#[test]
fn first_letter() {
    assert_eq!(first_letter_uppercase(""), "");
    assert_eq!(first_letter_uppercase("abc"), "Abc");
    assert_eq!(first_letter_uppercase("ßa"), "SSa");
}

#[test]
fn extension_forms() {
    assert_eq!(Extension::new("  .tar ").unwrap().to_string(), ".tar");
    assert!(Extension::new(" . ").is_none());
    assert_eq!(Extension::from_path("dir/file.tar.gz").unwrap().to_string(), ".gz");
    assert!(Extension::from_path("dir/.bashrc").is_none());
    assert!(Extension::from_path("dir/file").is_none());
    assert!(Extension::from_file_name("file.").is_none());
}

#[test]
fn find_identifier_in_text() {
    let id = Identifier::find_in_string("a 2024090T 20240908T19063022 20250101T00000000").unwrap();
    assert_eq!(id.to_string(), "20240908T19063022");
    assert!(Identifier::find_in_string("20240908X19063022").is_none());
}

#[test]
fn identifier_from_timestamp() {
    let id = Identifier::from_timestamp(&clock()).unwrap();
    assert_eq!(id.to_string(), "20240901T08304212");
    let mut leap = clock();
    leap.second = 59;
    leap.nanosecond = 1_500_000_000;
    assert_eq!(Identifier::from_timestamp(&leap).unwrap().to_string(), "20240901T08306050");
    let mut far = clock();
    far.date.year = 10000;
    assert!(Identifier::from_timestamp(&far).is_none());
    let mut bad = clock();
    bad.date.month = 13;
    assert!(Identifier::from_timestamp(&bad).is_none());
}

#[test]
fn identifier_from_date_texts() {
    let c = clock();
    let id = Identifier::from_string_date("2022-06-16 14:30", &c).unwrap();
    assert_eq!(id.to_string(), "20220616T14304212");
    let id = Identifier::parse_from_xml_date("2022-06-30", &c).unwrap();
    assert_eq!(id.to_string(), "20220630T08304212");
    assert!(Identifier::from_string_date("2022-06-30", &c).is_none());
    assert!(Identifier::parse_from_xml_date("junk", &c).is_none());
    let id = Identifier::parse_at("2022-06-30", &c).unwrap();
    assert_eq!(id.to_string(), "20220630T08304212");
    let id = Identifier::parse_at("now", &c).unwrap();
    assert_eq!(id.to_string(), "20240901T08304212");
    let id = Identifier::parse_at("x 20200101T01020304 y", &c).unwrap();
    assert_eq!(id.to_string(), "20200101T01020304");
    assert!(Identifier::parse_at("yesterday", &c).is_none());
}

#[test]
fn identifier_from_clock() {
    assert_eq!(Identifier::now().unwrap().to_string().chars().count(), 17);
    assert!(Identifier::from_string("2022-06-16 14:30").unwrap().to_string().starts_with("20220616T1430"));
    assert!(Identifier::from_string("2022-06-16").unwrap().to_string().starts_with("20220616T"));
}

#[test]
fn from_path_takes_file_name() {
    let d = Denote::from_path("some/dir/20240912T13015412--a-b.txt").unwrap();
    assert_eq!(d.to_string(), "20240912T13015412--a-b.txt");
    assert!(Denote::from_path("some/dir/plain.txt").is_none());
}

#[test]
fn unique_identifier_dates() {
    assert!(unic_id(Some("20240912T13015412")));
    assert!(!unic_id(Some("now")));
    assert!(!unic_id(None));
}

#[test]
fn answers() {
    assert_eq!(Answer::from_reply(" Yes\n", Answer::No), Answer::Yes);
    assert_eq!(Answer::from_reply("y", Answer::No), Answer::Yes);
    assert_eq!(Answer::from_reply("  ", Answer::No), Answer::No);
    assert_eq!(Answer::from_reply("", Answer::Yes), Answer::Yes);
    assert_eq!(Answer::from_reply("nope", Answer::Yes), Answer::No);
    assert!(Answer::Yes.as_bool());
    assert!(!Answer::No.as_bool());
}

#[test]
fn title_reply() {
    let t = Title::parse_reply("  \n", "Old title").unwrap();
    assert_eq!(t.to_string(), "--old-title");
    let t = Title::parse_reply("New one", "Old title").unwrap();
    assert_eq!(t.to_string(), "--new-one");
}

#[test]
fn non_ascii_punctuation_separates() {
    assert_eq!(slugify("a—b « c »", Some('-')), "a-b-c");
    assert_eq!(slugify("٣ apples", Some('=')), "٣=apples");
}

#[test]
fn from_path_reads_rendered_name() {
    let mut d = Denote::new(Identifier::parse("20240912T13015412").unwrap());
    d.title(Title::parse("Über Café").unwrap())
        .keywords(Keywords::parse_user_input("a,b").unwrap());
    let back = Denote::from_path(&d.to_string()).unwrap();
    assert_eq!(back, d);
}

#[test]
fn letters_always_give_a_field() {
    assert!(Title::parse("—é—").is_some());
    assert!(Signature::parse("!!7").is_some());
    assert!(Keywords::parse_schemed_string("__ñ__").is_some());
}
