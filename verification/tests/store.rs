use std::collections::BTreeMap;

use wool::alias::Alias;
use wool::command::Command;
use wool::content::Content;
use wool::document_id::DocumentId;
use wool::error::WoolError;
use wool::memory::MemoryStore;
use wool::reference::Reference;
use wool::relation::Relation;
use wool::relation_kind::RelationKind;
use wool::resolver::{AliasesResolver, LocalAliasesResolver};
use wool::tag::Tag;
use wool::text::{Entity, Text};
use wool::thesis::Thesis;
use wool::transaction::ReadTransactionMethods;
use wool::write::{insertion_refusal, remove_thesis, StoreChange, WriteTransactionMethods};

/// The library's store in memory, with the relation kinds of the example configuration.
fn new_store() -> MemoryStore {
    MemoryStore::new(
        ["includes", "therefore", "may be", "contradicts"].iter().map(|k| RelationKind(k.to_string())).collect(),
    )
}

/// A small deterministic generator of pseudo-random numbers.
struct Rng(u64);

impl Rng {
    fn next(&mut self) -> u64 {
        self.0 ^= self.0 << 13;
        self.0 ^= self.0 >> 7;
        self.0 ^= self.0 << 17;
        self.0
    }

    /// A number in `from..to`.
    fn range(&mut self, from: usize, to: usize) -> usize {
        from + (self.next() % ((to - from) as u64)) as usize
    }
}

fn random_text(rng: &mut Rng, previously_added_theses: &BTreeMap<DocumentId, Thesis>, store: &MemoryStore) -> Text {
    const ENGLISH_LETTERS: [&str; 26] = [
        "a", "b", "c", "d", "e", "f", "g", "h", "i", "j", "k", "l", "m", "n", "o", "p", "q", "r",
        "s", "t", "u", "v", "w", "x", "y", "z",
    ];
    const RUSSIAN_LETTERS: [&str; 33] = [
        "а", "б", "в", "г", "д", "е", "ё", "ж", "з", "и", "й", "к", "л", "м", "н", "о", "п", "р",
        "с", "т", "у", "ф", "х", "ц", "ч", "ш", "щ", "ъ", "ы", "ь", "э", "ю", "я",
    ];
    const PUNCTUATION: &[&str] = &[",-'\""];
    let language = rng.range(1, 3);
    let words: Vec<String> = (0..rng.range(3, 11))
        .map(|_| {
            if previously_added_theses.is_empty() || rng.range(0, 4) > 0 {
                (0..rng.range(2, 9))
                    .map(|_| {
                        if language == 1 {
                            ENGLISH_LETTERS[rng.range(0, ENGLISH_LETTERS.len())]
                        } else {
                            RUSSIAN_LETTERS[rng.range(0, RUSSIAN_LETTERS.len())]
                        }
                    })
                    .collect()
            } else {
                let k = rng.range(0, previously_added_theses.len());
                format!("[{}]", previously_added_theses.keys().nth(k).unwrap().to_string())
            }
        })
        .collect();
    let mut result_string = String::new();
    for (i, word) in words.iter().enumerate() {
        result_string.push_str(word);
        if i < words.len() - 1 {
            if rng.range(0, 3) == 0 {
                result_string.push_str(PUNCTUATION[rng.range(0, PUNCTUATION.len())]);
            } else {
                result_string.push(' ');
            }
        }
    }
    let aliases_resolver = LocalAliasesResolver::new(store);
    let result = aliases_resolver.new_text(&result_string).unwrap();
    assert_eq!(result.composed_raw(), result_string);
    result
}

fn random_tag(rng: &mut Rng) -> Tag {
    const LETTERS: [&str; 26] = [
        "a", "b", "c", "d", "e", "f", "g", "h", "i", "j", "k", "l", "m", "n", "o", "p", "q", "r",
        "s", "t", "u", "v", "w", "x", "y", "z",
    ];
    Tag((0..rng.range(1, 3)).map(|_| LETTERS[rng.range(0, LETTERS.len())]).collect())
}

fn random_thesis(rng: &mut Rng, previously_added_theses: &BTreeMap<DocumentId, Thesis>, store: &MemoryStore) -> Thesis {
    let mut tags = (0..rng.range(0, 10)).map(|_| random_tag(rng)).collect::<Vec<_>>();
    tags.sort_by(|a, b| a.0.cmp(&b.0));
    tags.dedup();
    let action_id = if previously_added_theses.is_empty() { 1 } else { rng.range(1, 3) };
    let content = match action_id {
        1 => Content::Text(random_text(rng, previously_added_theses, store)),
        _ => {
            let from = *previously_added_theses.keys().nth(rng.range(0, previously_added_theses.len())).unwrap();
            let to = *previously_added_theses.keys().nth(rng.range(0, previously_added_theses.len())).unwrap();
            let kinds = store.supported_relations_kinds();
            let kind = kinds[rng.range(0, kinds.len())].clone();
            Content::Relation(Relation { from, to, kind })
        }
    };
    Thesis { alias: None, content, tags }
}

#[test]
fn test_generative() {
    let mut store = new_store();
    let mut rng = Rng(0x9e37_79b9_7f4a_7c15);
    let mut previously_added_theses: BTreeMap<DocumentId, Thesis> = BTreeMap::new();
    for _ in 0..1000 {
        let action_id = if previously_added_theses.is_empty() { 1 } else { rng.range(1, 4) };
        match action_id {
            1 => {
                let thesis = {
                    let mut result = random_thesis(&mut rng, &previously_added_theses, &store);
                    while previously_added_theses.contains_key(&result.id()) {
                        result = random_thesis(&mut rng, &previously_added_theses, &store);
                    }
                    result
                };
                thesis.validated().unwrap();
                store.insert_thesis(thesis.clone()).unwrap();
                for take_tags_amount in 1..thesis.tags.len() {
                    let taken_tags = thesis.tags[..take_tags_amount].to_vec();
                    for thesis_with_such_tags_id in store.iter_theses_ids_by_tags(&taken_tags, &vec![], None).unwrap() {
                        let thesis_with_such_tags = store.get_thesis(&thesis_with_such_tags_id).unwrap().unwrap();
                        for tag in taken_tags.iter() {
                            assert!(thesis_with_such_tags.tags.contains(tag));
                        }
                    }
                }
                let thesis_id = thesis.id();
                assert_eq!(store.get_thesis(&thesis_id).unwrap().unwrap(), thesis);
                for referenced_thesis_id in thesis.references() {
                    let where_referenced = store.where_referenced(&referenced_thesis_id).unwrap();
                    assert!(where_referenced.contains(&thesis_id));
                }
                previously_added_theses.insert(thesis_id, thesis);
                assert_eq!(
                    &store.get_thesis(&thesis_id).unwrap().unwrap(),
                    previously_added_theses.get(&thesis_id).unwrap()
                );
            }
            2 => {
                let thesis_to_tag_id = *previously_added_theses
                    .keys()
                    .nth(rng.range(0, previously_added_theses.len()))
                    .unwrap();
                let thesis_to_tag = previously_added_theses.get(&thesis_to_tag_id).unwrap();
                let tag_to_add = {
                    let mut result = random_tag(&mut rng);
                    while thesis_to_tag.tags.contains(&result) {
                        result = random_tag(&mut rng);
                    }
                    result
                };
                store.add_tags(&thesis_to_tag_id, vec![tag_to_add.clone()]).unwrap();
                assert!(store.get_thesis(&thesis_to_tag_id).unwrap().unwrap().tags.contains(&tag_to_add));
                previously_added_theses.get_mut(&thesis_to_tag_id).unwrap().tags.push(tag_to_add);
                assert_eq!(
                    &store.get_thesis(&thesis_to_tag_id).unwrap().unwrap(),
                    previously_added_theses.get(&thesis_to_tag_id).unwrap()
                );
            }
            3 => {
                if let Some((thesis_to_untag_id, thesis_to_untag)) = previously_added_theses
                    .iter()
                    .find(|(_, thesis)| !thesis.tags.is_empty())
                    .map(|(id, thesis)| (*id, thesis.clone()))
                {
                    assert_eq!(store.get_thesis(&thesis_to_untag_id).unwrap().unwrap(), thesis_to_untag);
                    let tag_to_remove_index = rng.range(0, thesis_to_untag.tags.len());
                    let tag_to_remove = thesis_to_untag.tags[tag_to_remove_index].clone();
                    store.remove_tags(&thesis_to_untag_id, &vec![tag_to_remove.clone()]).unwrap();
                    assert!(!store.get_thesis(&thesis_to_untag_id).unwrap().unwrap().tags.contains(&tag_to_remove));
                    previously_added_theses.get_mut(&thesis_to_untag_id).unwrap().tags.remove(tag_to_remove_index);
                    assert_eq!(
                        &store.get_thesis(&thesis_to_untag_id).unwrap().unwrap(),
                        previously_added_theses.get(&thesis_to_untag_id).unwrap()
                    );
                }
            }
            _ => {}
        }
    }
    for (thesis_id, thesis) in previously_added_theses.iter() {
        assert_eq!(store.get_thesis(thesis_id).unwrap().unwrap(), *thesis);
    }
}

/// The commands of the README, in the order they can be carried out.
const EXAMPLE: &[&str] = &[
    "/may Релятивизм опасен",
    "/may R alias Общий релятивизм",
    "/may r alias Частный релятивизм",
    "/may A alias Абсолютизм",
    "/may R-r includes [r]",
    "/may ((A1.1.2)/(R-r)).3.1 alias R includes A",
    "/may total truth tag [R]",
    "/may total truth not tag [R]",
    "/may (R-r).0 alias R",
];

#[test]
fn test_example() {
    let mut store = new_store();
    let kinds = store.supported_relations_kinds();
    let mut commands = vec![];
    {
        let mut aliases_resolver = LocalAliasesResolver::new(&store);
        for line in EXAMPLE {
            commands.push(Command::parse(line, &mut aliases_resolver, &kinds).unwrap());
        }
    }
    for command in commands.iter() {
        store.execute_command(command).unwrap();
    }
    for command in store.backup_to_commands().unwrap() {
        match command {
            Command::AddTextThesisWithAlias { text, alias } => {
                let content = Content::Text(text);
                let thesis_in_store = store.get_thesis(&content.id()).unwrap().unwrap();
                assert_eq!(content, thesis_in_store.content);
                assert_eq!(Some(alias), thesis_in_store.alias);
            }
            Command::AddTextThesisWithoutAlias(text) => {
                let content = Content::Text(text);
                let thesis_in_store = store.get_thesis(&content.id()).unwrap().unwrap();
                assert_eq!(content, thesis_in_store.content);
            }
            Command::AddRelationThesisWithAlias { relation, alias } => {
                let content = Content::Relation(relation);
                let thesis_in_store = store.get_thesis(&content.id()).unwrap().unwrap();
                assert_eq!(content, thesis_in_store.content);
                assert_eq!(Some(alias), thesis_in_store.alias);
            }
            Command::AddRelationThesisWithoutAlias(relation) => {
                let content = Content::Relation(relation);
                let thesis_in_store = store.get_thesis(&content.id()).unwrap().unwrap();
                assert_eq!(content, thesis_in_store.content);
            }
            _ => {}
        }
    }
}

fn store_with_example() -> (MemoryStore, Vec<Command>) {
    let mut store = new_store();
    let kinds = store.supported_relations_kinds();
    let lines = [
        "/may R alias Общий релятивизм",
        "/may r alias Частный релятивизм",
        "/may R-r alias [R] includes [r]",
    ];
    let mut commands = vec![];
    for line in lines {
        let command = {
            let mut aliases_resolver = LocalAliasesResolver::new(&store);
            Command::parse(line, &mut aliases_resolver, &kinds).unwrap()
        };
        store.execute_command(&command).unwrap();
        commands.push(command);
    }
    (store, commands)
}

fn parse_in(store: &MemoryStore, line: &str) -> Result<Command, WoolError> {
    let kinds = store.supported_relations_kinds();
    let mut aliases_resolver = LocalAliasesResolver::new(store);
    Command::parse(line, &mut aliases_resolver, &kinds)
}

#[test]
fn readme_commands_are_read_as_documented() {
    let (store, commands) = store_with_example();
    assert!(matches!(&commands[0], Command::AddTextThesisWithAlias { alias, .. } if alias.0 == "R"));
    assert!(matches!(&commands[1], Command::AddTextThesisWithAlias { alias, .. } if alias.0 == "r"));
    assert!(matches!(&commands[1], Command::AddTextThesisWithAlias { text, .. } if text.composed_raw() == "Частный релятивизм"));
    let r_id = store.get_thesis_id_by_alias(&Alias("R".to_string())).unwrap().unwrap();
    let small_r_id = store.get_thesis_id_by_alias(&Alias("r".to_string())).unwrap().unwrap();

    match parse_in(&store, "/may Релятивизм опасен").unwrap() {
        Command::AddTextThesisWithoutAlias(text) => {
            assert_eq!(text.entities, vec![
                Entity::Word("Релятивизм".to_string()),
                Entity::Other(" ".to_string()),
                Entity::Word("опасен".to_string()),
            ]);
        }
        other => panic!("{:?}", other),
    }
    match parse_in(&store, "/may R includes r").unwrap() {
        Command::AddRelationThesisWithoutAlias(relation) => {
            assert_eq!(relation, Relation { from: r_id, to: small_r_id, kind: RelationKind("includes".to_string()) });
        }
        other => panic!("{:?}", other),
    }
    match parse_in(&store, "/may ((A1.1.2)/(R-r)).3.1 alias R includes r").unwrap() {
        Command::AddRelationThesisWithAlias { relation, alias } => {
            assert_eq!(alias.0, "((A1.1.2)/(R-r)).3.1");
            assert_eq!(relation, Relation { from: r_id, to: small_r_id, kind: RelationKind("includes".to_string()) });
        }
        other => panic!("{:?}", other),
    }
    match parse_in(&store, "/may total truth tag R").unwrap() {
        Command::AddTags { thesis_id, tags } => {
            assert_eq!(thesis_id, r_id);
            assert_eq!(tags, vec![Tag("total".to_string()), Tag("truth".to_string())]);
        }
        other => panic!("{:?}", other),
    }
    match parse_in(&store, "/may total truth not tag R").unwrap() {
        Command::RemoveTags { thesis_id, tags } => {
            assert_eq!(thesis_id, r_id);
            assert_eq!(tags, vec![Tag("total".to_string()), Tag("truth".to_string())]);
        }
        other => panic!("{:?}", other),
    }
    match parse_in(&store, "/may (R-r).0 alias R").unwrap() {
        Command::SetAlias { thesis_id, alias } => {
            assert_eq!(thesis_id, r_id);
            assert_eq!(alias.0, "(R-r).0");
        }
        other => panic!("{:?}", other),
    }
    match parse_in(&store, &format!("/may x alias {}", r_id.to_string())).unwrap() {
        Command::SetAlias { thesis_id, .. } => assert_eq!(thesis_id, r_id),
        other => panic!("{:?}", other),
    }
}

#[test]
fn refused_lines_give_their_errors() {
    let (store, _) = store_with_example();
    assert!(matches!(parse_in(&store, "hello"), Err(WoolError::Unparsable(_))));
    assert!(matches!(parse_in(&store, "/may"), Err(WoolError::Unparsable(_))));
    // an unknown alias in a text
    assert!(matches!(parse_in(&store, "/may [nobody] is here"), Err(WoolError::Unparsable(_))));
    let resolver = LocalAliasesResolver::new(&store);
    assert!(matches!(resolver.new_text("[nobody] is here"), Err(WoolError::UnknownAlias(_))));
    assert!(matches!(resolver.new_text("[ZqavF73LC9OQwCptOMUf1x]"), Err(WoolError::InvalidDocumentId(_))));
    assert!(matches!(
        resolver.get_thesis_id_by_reference(&Reference::DocumentId(DocumentId { value: [7; 16] })),
        Err(WoolError::UnknownThesis(_))
    ));
    assert!(matches!(
        resolver.get_thesis_id_by_reference(&Reference::Alias(Alias("nobody".to_string()))),
        Err(WoolError::UnknownAlias(_))
    ));
    // a relation of a kind that is not supported is read as a text
    match parse_in(&store, "/may R refutes r").unwrap() {
        Command::AddTextThesisWithoutAlias(_) => {}
        other => panic!("{:?}", other),
    }
}

#[test]
fn remembered_aliases_take_precedence() {
    let (store, _) = store_with_example();
    let mut resolver = LocalAliasesResolver::new(&store);
    let other = DocumentId { value: [1; 16] };
    resolver.remember(Alias("R".to_string()), other);
    assert_eq!(resolver.get_thesis_id_by_reference(&Reference::Alias(Alias("R".to_string()))).unwrap(), other);
    assert_eq!(resolver.known(&Alias("R".to_string())), Some(other));
    assert_eq!(resolver.known(&Alias("r".to_string())), None);
    // a command that gives an alias is remembered for the lines after it
    let kinds = store.supported_relations_kinds();
    let c = Command::parse("/may new alias Новый тезис", &mut resolver, &kinds).unwrap();
    let id = match &c {
        Command::AddTextThesisWithAlias { text, .. } => Content::Text(text.clone()).id(),
        other => panic!("{:?}", other),
    };
    assert_eq!(resolver.known(&Alias("new".to_string())), Some(id));
}

#[test]
fn store_refuses_what_it_cannot_hold() {
    let (mut store, commands) = store_with_example();
    assert!(matches!(store.execute_command(&commands[0]), Err(WoolError::AlreadyExists(_))));
    let missing = Relation { from: DocumentId { value: [2; 16] }, to: DocumentId { value: [3; 16] }, kind: RelationKind("includes".to_string()) };
    let thesis = Thesis { alias: None, content: Content::Relation(missing), tags: vec![] };
    assert!(matches!(store.insert_thesis(thesis), Err(WoolError::MissingRelated(_))));
    let unsupported = Relation { from: DocumentId { value: [2; 16] }, to: DocumentId { value: [3; 16] }, kind: RelationKind("refutes".to_string()) };
    let thesis = Thesis { alias: None, content: Content::Relation(unsupported), tags: vec![] };
    assert!(matches!(store.insert_thesis(thesis), Err(WoolError::UnsupportedRelationKind(_))));
}

#[test]
fn written_commands_are_read_back() {
    let (mut store, _) = store_with_example();
    let r_id = store.get_thesis_id_by_alias(&Alias("R".to_string())).unwrap().unwrap();
    let tags = vec![Tag("total".to_string()), Tag("truth".to_string())];
    store.add_tags(&r_id, tags.clone()).unwrap();
    store.add_tags(&r_id, tags.clone()).unwrap();
    assert_eq!(store.get_thesis(&r_id).unwrap().unwrap().tags, tags);
    let commands = vec![
        Command::SetAlias { thesis_id: r_id, alias: Alias("(R-r).0".to_string()) },
        Command::AddTags { thesis_id: r_id, tags: tags.clone() },
        Command::RemoveTags { thesis_id: r_id, tags: tags.clone() },
    ];
    for command in commands {
        let line = command.to_parsable(&store).unwrap();
        assert_eq!(parse_in(&store, &line).unwrap(), command, "{}", line);
    }
    for command in store.backup_to_commands().unwrap() {
        let line = command.to_parsable(&store).unwrap();
        let read = parse_in(&store, &line).unwrap();
        match (&command, &read) {
            (Command::AddTextThesisWithAlias { text: a, alias: x }, Command::AddTextThesisWithAlias { text: b, alias: y }) => {
                assert_eq!(a.composed_raw(), b.composed_raw());
                assert_eq!(x, y);
            }
            _ => assert_eq!(read, command, "{}", line),
        }
    }
}

#[test]
fn backup_puts_referred_theses_first() {
    let (store, _) = store_with_example();
    let commands = store.backup_to_commands().unwrap();
    let mut seen = vec![];
    for command in commands.iter() {
        if let Some(thesis) = command.thesis_to_add() {
            for r in thesis.references() {
                assert!(seen.contains(&r));
            }
            seen.push(thesis.id());
        }
    }
    assert!(seen.len() >= 3);
}

#[test]
fn identified_commands_are_read_back_as_themselves() {
    let (store, _) = store_with_example();
    let r_id = store.get_thesis_id_by_alias(&Alias("R".to_string())).unwrap().unwrap();
    let small_r_id = store.get_thesis_id_by_alias(&Alias("r".to_string())).unwrap().unwrap();
    let text = Text {
        entities: vec![
            Entity::Word("Релятивизм".to_string()),
            Entity::Other(" ".to_string()),
            Entity::Reference(r_id),
            Entity::Other(", ".to_string()),
            Entity::Word("truth".to_string()),
        ],
    };
    let relation = Relation { from: r_id, to: small_r_id, kind: RelationKind("includes".to_string()) };
    let tags = vec![Tag("total".to_string()), Tag("truth".to_string())];
    let commands = vec![
        Command::SetAlias { thesis_id: r_id, alias: Alias("(R-r).0".to_string()) },
        Command::AddTags { thesis_id: small_r_id, tags: tags.clone() },
        Command::RemoveTags { thesis_id: small_r_id, tags: tags.clone() },
        Command::AddRelationThesisWithAlias { relation: relation.clone(), alias: Alias("Rr".to_string()) },
        Command::AddRelationThesisWithoutAlias(relation.clone()),
        Command::AddTextThesisWithAlias { text: text.clone(), alias: Alias("T".to_string()) },
        Command::AddTextThesisWithoutAlias(text.clone()),
    ];
    for command in commands {
        let line = command.to_parsable_with(&vec![None, None, None, None, None]);
        assert_eq!(parse_in(&store, &line).unwrap(), command, "{}", line);
    }
}

#[test]
fn removing_a_thesis_removes_what_refers_to_it() {
    let (mut store, _) = store_with_example();
    let r_id = store.get_thesis_id_by_alias(&Alias("R".to_string())).unwrap().unwrap();
    let small_r_id = store.get_thesis_id_by_alias(&Alias("r".to_string())).unwrap().unwrap();
    let rr_id = store.get_thesis_id_by_alias(&Alias("R-r".to_string())).unwrap().unwrap();
    let line = format!("/may [{}] is wide", r_id.to_string());
    let mentioning = parse_in(&store, &line).unwrap();
    store.execute_command(&mentioning).unwrap();
    let mentioning_id = mentioning.thesis_to_add().unwrap().id();
    assert!(store.get_thesis(&mentioning_id).unwrap().is_some());
    assert_eq!(store.iter_theses().unwrap().len(), 4);

    remove_thesis(&mut store, &r_id).unwrap();
    assert!(store.get_thesis(&r_id).unwrap().is_none());
    assert!(store.get_thesis(&rr_id).unwrap().is_none());
    assert!(store.get_thesis(&mentioning_id).unwrap().is_none());
    assert!(store.get_thesis(&small_r_id).unwrap().is_some());
    assert_eq!(store.iter_theses().unwrap().len(), 1);

    remove_thesis(&mut store, &r_id).unwrap();
    assert_eq!(store.iter_theses().unwrap().len(), 1);
}

#[test]
fn insertion_refusals_follow_the_store_answers() {
    let (store, _) = store_with_example();
    let r_id = store.get_thesis_id_by_alias(&Alias("R".to_string())).unwrap().unwrap();
    let small_r_id = store.get_thesis_id_by_alias(&Alias("r".to_string())).unwrap().unwrap();
    let relation = Thesis {
        alias: None,
        content: Content::Relation(Relation { from: r_id, to: small_r_id, kind: RelationKind("therefore".to_string()) }),
        tags: vec![],
    };
    assert!(matches!(insertion_refusal(&relation, true, true, true, true), Some(WoolError::AlreadyExists(_))));
    assert!(matches!(insertion_refusal(&relation, false, false, true, true), Some(WoolError::UnsupportedRelationKind(_))));
    assert!(matches!(insertion_refusal(&relation, false, true, false, true), Some(WoolError::MissingRelated(s)) if s == r_id.to_string()));
    assert!(matches!(insertion_refusal(&relation, false, true, true, false), Some(WoolError::MissingRelated(s)) if s == small_r_id.to_string()));
    assert!(insertion_refusal(&relation, false, true, true, true).is_none());
    let text = Thesis { alias: None, content: Content::Text(Text { entities: vec![Entity::Word("a".to_string())] }), tags: vec![] };
    assert!(insertion_refusal(&text, false, false, false, false).is_none());
}

#[test]
fn commands_ask_for_their_own_store_changes() {
    let (_, commands) = store_with_example();
    for command in commands.iter() {
        match command.store_change() {
            StoreChange::Insert(thesis) => assert_eq!(Some(thesis), command.thesis_to_add()),
            _ => panic!("{:?}", command),
        }
    }
    let id = commands[0].thesis_to_add().unwrap().id();
    let tags = vec![Tag("t".to_string())];
    assert!(matches!(Command::AddTags { thesis_id: id, tags: tags.clone() }.store_change(), StoreChange::AddTags(i, t) if i == id && t == tags));
    assert!(matches!(Command::RemoveTags { thesis_id: id, tags: tags.clone() }.store_change(), StoreChange::RemoveTags(i, t) if i == id && t == tags));
    assert!(matches!(Command::SetAlias { thesis_id: id, alias: Alias("x".to_string()) }.store_change(), StoreChange::SetAlias(i, a) if i == id && a.0 == "x"));
}

#[test]
fn aliases_given_earlier_in_a_batch_resolve_later_lines() {
    let store = new_store();
    let kinds = store.supported_relations_kinds();
    let mut aliases_resolver = LocalAliasesResolver::new(&store);
    let first = Command::parse("/may R alias Общий релятивизм", &mut aliases_resolver, &kinds).unwrap();
    let id = first.thesis_to_add().unwrap().id();
    assert_eq!(aliases_resolver.known_aliases.len(), 1);
    let later = Command::parse("/may x tag R", &mut aliases_resolver, &kinds).unwrap();
    assert_eq!(later, Command::AddTags { thesis_id: id, tags: vec![Tag("x".to_string())] });
    assert_eq!(aliases_resolver.known_aliases.len(), 1);
    let set = Command::parse("/may R2 alias R", &mut aliases_resolver, &kinds).unwrap();
    assert_eq!(set, Command::SetAlias { thesis_id: id, alias: Alias("R2".to_string()) });
    assert_eq!(aliases_resolver.known_aliases.len(), 2);
    assert_eq!(aliases_resolver.get_thesis_id_by_reference(&Reference::Alias(Alias("R".to_string()))).unwrap(), id);
}

#[test]
fn texts_read_aliases_through_the_store_and_name_their_errors() {
    let (store, _) = store_with_example();
    let r_id = store.get_thesis_id_by_alias(&Alias("R".to_string())).unwrap().unwrap();
    let aliases_resolver = LocalAliasesResolver::new(&store);
    let text = aliases_resolver.new_text("по [R] видно").unwrap();
    assert_eq!(text.entities[2], Entity::Reference(r_id));
    assert!(matches!(aliases_resolver.new_text("[a b] и [ZqavF73LC9OQwCptOMUf1x]"), Err(WoolError::InvalidAlias(_))));
    assert!(matches!(aliases_resolver.new_text("[:ZqavF73LC9OQwCptOMUf1x] и [a b]"), Err(WoolError::InvalidDocumentId(_))));
    assert!(aliases_resolver.new_text("[нет такого]").is_err());
}
