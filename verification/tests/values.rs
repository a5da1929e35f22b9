use bincode::config::standard;
use regex::Regex;

use wool::alias::Alias;
use wool::command::Command;
use wool::content::{relation_to_bytes, Content};
use wool::document_id::DocumentId;
use wool::error::WoolError;
use wool::reading::{read_text_pieces, TextPiece};
use wool::reference::Reference;
use wool::relation::Relation;
use wool::relation_kind::RelationKind;
use wool::tag::Tag;
use wool::text::{Entity, Text};
use wool::thesis::Thesis;

fn id(n: u8) -> DocumentId {
    let mut value = [0u8; 16];
    for (i, b) in value.iter_mut().enumerate() {
        *b = n.wrapping_mul(31).wrapping_add(i as u8 * 7);
    }
    DocumentId { value }
}

fn base64_url(bytes: &[u8]) -> String {
    const ALPHABET: &[u8] = b"ABCDEFGHIJKLMNOPQRSTUVWXYZabcdefghijklmnopqrstuvwxyz0123456789-_";
    let mut bits: u32 = 0;
    let mut count = 0;
    let mut out = String::new();
    for b in bytes {
        bits = (bits << 8) | *b as u32;
        count += 8;
        while count >= 6 {
            count -= 6;
            out.push(ALPHABET[((bits >> count) & 63) as usize] as char);
        }
    }
    if count > 0 {
        out.push(ALPHABET[((bits << (6 - count)) & 63) as usize] as char);
    }
    out
}

#[test]
fn identifier_is_written_as_url_safe_base64() {
    for n in 0..=255u8 {
        let i = id(n);
        let written = i.to_string();
        assert_eq!(written, base64_url(&i.value));
        assert_eq!(written.chars().count(), 22);
        assert_eq!(DocumentId::from_string(&written), Some(i));
    }
}

#[test]
fn readme_identifier_reads_back() {
    let read = DocumentId::from_string("ZqavF73LC9OQwCptOMUf1w").unwrap();
    assert_eq!(read.to_string(), "ZqavF73LC9OQwCptOMUf1w");
    let read = DocumentId::from_string("lvKjiQU1MkRfVFyJrWEaog").unwrap();
    assert_eq!(read.to_string(), "lvKjiQU1MkRfVFyJrWEaog");
}

#[test]
fn malformed_identifiers_are_refused() {
    assert_eq!(DocumentId::from_string("ZqavF73LC9OQwCptOMUf1"), None);
    assert_eq!(DocumentId::from_string("ZqavF73LC9OQwCptOMUf1wA"), None);
    assert_eq!(DocumentId::from_string("ZqavF73LC9OQwCptOMUf1x"), None);
    assert_eq!(DocumentId::from_string("ZqavF73LC9OQwCptOMUf+w"), None);
    assert_eq!(DocumentId::from_string(""), None);
}

#[test]
fn relation_bytes_are_the_standard_binary_form() {
    for kind in ["includes", "may be", "", &"x".repeat(300), &"y".repeat(70000)] {
        let relation = Relation { from: id(1), to: id(2), kind: RelationKind(kind.to_string()) };
        let expected = bincode::encode_to_vec((id(1).value, id(2).value, kind.to_string()), standard()).unwrap();
        assert_eq!(relation_to_bytes(&relation), expected);
    }
}

#[test]
fn content_identifiers_hash_the_content() {
    let relation = Relation { from: id(3), to: id(4), kind: RelationKind("therefore".to_string()) };
    let bytes = relation_to_bytes(&relation);
    let content = Content::Relation(relation);
    assert_eq!(content.id().value, xxhash_rust::xxh3::xxh3_128(&bytes).to_be_bytes());

    let text = Text {
        entities: vec![
            Entity::Word("Релятивизм".to_string()),
            Entity::Other(" ".to_string()),
            Entity::Reference(id(5)),
        ],
    };
    let raw = format!("Релятивизм [{}]", id(5).to_string());
    assert_eq!(text.composed_raw(), raw);
    let content = Content::Text(text);
    assert_eq!(content.id().value, xxhash_rust::xxh3::xxh3_128(raw.as_bytes()).to_be_bytes());
    let thesis = Thesis { alias: Some(Alias("R".to_string())), content: content.clone(), tags: vec![Tag("t".to_string())] };
    assert_eq!(thesis.id(), content.id());
}

#[test]
fn aliases_tags_kinds_and_words_are_checked() {
    assert!(Alias("(R-r).0".to_string()).validated().is_ok());
    assert!(Alias("релятивизм".to_string()).validated().is_ok());
    assert!(matches!(Alias("a b".to_string()).validated(), Err(WoolError::InvalidAlias(_))));
    assert!(matches!(Alias("".to_string()).validated(), Err(WoolError::InvalidAlias(_))));
    assert!(matches!(Alias("a\u{a0}b".to_string()).validated(), Err(WoolError::InvalidAlias(_))));

    assert!(Tag("absolute_truth".to_string()).validated().is_ok());
    assert!(Tag("истина".to_string()).validated().is_ok());
    assert!(matches!(Tag("a-b".to_string()).validated(), Err(WoolError::InvalidTag(_))));
    assert!(matches!(Tag("".to_string()).validated(), Err(WoolError::InvalidTag(_))));

    assert!(RelationKind("may be".to_string()).validated().is_ok());
    assert!(RelationKind("therefore".to_string()).validated().is_ok());
    assert!(matches!(RelationKind("may-be".to_string()).validated(), Err(WoolError::InvalidRelationKind(_))));
    assert!(matches!(RelationKind("".to_string()).validated(), Err(WoolError::InvalidRelationKind(_))));

    assert!(matches!(RelationKind("может быть".to_string()).validated(), Err(WoolError::InvalidRelationKind(_))));
    assert!(RelationKind("is part_2 of".to_string()).validated().is_ok());

    let good = Text { entities: vec![Entity::Word("Abc".to_string()), Entity::Other(", - : . ' \" ".to_string()), Entity::Word("где".to_string())] };
    assert!(good.validated().is_ok());
    let bad = Text { entities: vec![Entity::Word("abc1".to_string())] };
    assert!(matches!(bad.validated(), Err(WoolError::InvalidWord(_))));
    let marks = Text { entities: vec![Entity::Other("!?".to_string())] };
    assert!(matches!(marks.validated(), Err(WoolError::InvalidWord(_))));
    let digits = Text { entities: vec![Entity::Word("a".to_string()), Entity::Other(" 1 ".to_string())] };
    assert!(matches!(digits.validated(), Err(WoolError::InvalidWord(_))));
    let empty_word = Text { entities: vec![Entity::Word("".to_string())] };
    assert!(matches!(empty_word.validated(), Err(WoolError::InvalidWord(_))));
}

#[test]
fn references_are_identifiers_or_aliases() {
    let i = id(9);
    assert_eq!(Reference::new(&i.to_string()).unwrap(), Reference::DocumentId(i));
    assert_eq!(Reference::new("релятивизм").unwrap(), Reference::Alias(Alias("релятивизм".to_string())));
    assert_eq!(Reference::new("ZqavF73LC9OQwCptOMUf1x").unwrap(), Reference::Alias(Alias("ZqavF73LC9OQwCptOMUf1x".to_string())));
    assert!(matches!(Reference::new("a b"), Err(WoolError::InvalidAlias(_))));
}

fn piece_text(p: &TextPiece) -> String {
    match p {
        TextPiece::Word(w) | TextPiece::Other(w) => w.clone(),
        TextPiece::Identifier(c) | TextPiece::AliasName(c) => format!("[{}]", c),
    }
}

#[test]
fn text_pieces_agree_with_the_reference_pattern() {
    let re = Regex::new(r#"\[(:?([A-Za-z0-9-_]{22})|([^\[\]]+))\]"#).unwrap();
    let parts = ["a", " ", "[", "]", "x", "[ZqavF73LC9OQwCptOMUf1w]", "[:ZqavF73LC9OQwCptOMUf1w]", ":", "Б", ",", "[[", "]]", "1"];
    let mut inputs = vec![];
    for a in parts.iter() {
        for b in parts.iter() {
            for c in parts.iter() {
                inputs.push(format!("{}{}{}", a, b, c));
            }
        }
    }
    for input in inputs {
        let pieces = read_text_pieces(&input);
        let rejoined: String = pieces.iter().map(piece_text).collect();
        assert_eq!(rejoined, input);
        let mut expected = vec![];
        for captures in re.captures_iter(&input) {
            if let Some(identifier) = captures.get(2) {
                expected.push((true, identifier.as_str().to_string()));
            } else {
                expected.push((false, captures.get(3).unwrap().as_str().to_string()));
            }
        }
        let got: Vec<(bool, String)> = pieces
            .iter()
            .filter_map(|p| match p {
                TextPiece::Identifier(c) => Some((true, c.trim_start_matches(':').to_string())),
                TextPiece::AliasName(c) => Some((false, c.clone())),
                _ => None,
            })
            .collect();
        assert_eq!(got, expected, "{:?}", input);
        for p in pieces.iter() {
            if let TextPiece::Word(w) = p {
                assert!(Text { entities: vec![Entity::Word(w.clone())] }.validated().is_ok());
            }
        }
    }
}

#[test]
fn composed_writes_references_with_the_given_labels() {
    let text = Text {
        entities: vec![Entity::Reference(id(1)), Entity::Other(" и ".to_string()), Entity::Reference(id(2))],
    };
    let written = text.composed(|i| Ok(format!("#{}", i.value[0]))).unwrap();
    assert_eq!(written, format!("[#{}] и [#{}]", id(1).value[0], id(2).value[0]));
    let failed = text.composed(|_| Err(WoolError::Storage("down".to_string())));
    assert!(matches!(failed, Err(WoolError::Storage(_))));
}

#[test]
fn thesis_references_and_commands() {
    let text = Text { entities: vec![Entity::Reference(id(1)), Entity::Other(" ".to_string()), Entity::Reference(id(2))] };
    let thesis = Thesis { alias: None, content: Content::Text(text.clone()), tags: vec![] };
    assert_eq!(thesis.references(), vec![id(1), id(2)]);
    assert_eq!(thesis.to_commands(), vec![Command::AddTextThesisWithoutAlias(text.clone())]);

    let relation = Relation { from: id(3), to: id(4), kind: RelationKind("includes".to_string()) };
    let tags = vec![Tag("a".to_string()), Tag("b".to_string())];
    let thesis = Thesis { alias: Some(Alias("R".to_string())), content: Content::Relation(relation.clone()), tags: tags.clone() };
    assert_eq!(thesis.references(), vec![id(3), id(4)]);
    assert_eq!(
        thesis.to_commands(),
        vec![
            Command::AddRelationThesisWithAlias { relation: relation.clone(), alias: Alias("R".to_string()) },
            Command::AddTags { thesis_id: thesis.id(), tags },
        ]
    );
    let added = thesis.to_commands()[0].thesis_to_add().unwrap();
    assert_eq!(added, Thesis { tags: vec![], ..thesis.clone() });
    assert!(Command::SetAlias { thesis_id: id(1), alias: Alias("x".to_string()) }.thesis_to_add().is_none());
}

#[test]
fn commands_are_written_as_lines() {
    let r = Alias("R".to_string());
    let tags = vec![Tag("total".to_string()), Tag("truth".to_string())];
    let line = Command::AddTags { thesis_id: id(1), tags: tags.clone() }.to_parsable_with(&vec![Some(r.clone())]);
    assert_eq!(line, "/may total truth tag R");
    let line = Command::RemoveTags { thesis_id: id(1), tags }.to_parsable_with(&vec![None]);
    assert_eq!(line, format!("/may total truth not tag {}", id(1).to_string()));
    let line = Command::SetAlias { thesis_id: id(1), alias: Alias("(R-r).0".to_string()) }.to_parsable_with(&vec![Some(r.clone())]);
    assert_eq!(line, "/may (R-r).0 alias R");
    let relation = Relation { from: id(1), to: id(2), kind: RelationKind("includes".to_string()) };
    let line = Command::AddRelationThesisWithAlias { relation, alias: Alias("X".to_string()) }
        .to_parsable_with(&vec![Some(r.clone()), None]);
    assert_eq!(line, format!("/may X alias R includes {}", id(2).to_string()));
    let text = Text { entities: vec![Entity::Reference(id(1)), Entity::Other(" ".to_string()), Entity::Word("опасен".to_string())] };
    let line = Command::AddTextThesisWithoutAlias(text).to_parsable_with(&vec![Some(r), None, None]);
    assert_eq!(line, "/may [R] опасен");
}

#[test]
fn validated_keeps_the_command() {
    let c = Command::AddTags { thesis_id: id(1), tags: vec![Tag("a".to_string())] };
    assert_eq!(c.clone().validated().unwrap(), c);
    let c = Command::RemoveTags { thesis_id: id(1), tags: vec![Tag("".to_string())] };
    assert!(matches!(c.validated(), Err(WoolError::InvalidTag(_))));
    let c = Command::SetAlias { thesis_id: id(1), alias: Alias("a b".to_string()) };
    assert!(matches!(c.validated(), Err(WoolError::InvalidAlias(_))));
}
