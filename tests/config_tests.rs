use interface_dispatch::config::{doc_comment, Attribute, Diagnostic, InterfaceMeta, Key, Loc, Spanned};

fn attr(path: &str, args: &str) -> Attribute {
    Attribute { path: path.to_string(), args: args.to_string() }
}

fn loc(fragment: usize, offset: usize) -> Loc {
    Loc { fragment, offset }
}

#[test]
fn parses_every_key() {
    let m = InterfaceMeta::parse(
        "name = \"Character\", desc = \"A being\", ctx = Database, scalar = MyScalar, for(Human, Droid), internal",
        3,
    )
    .unwrap();
    let name = m.name.unwrap();
    assert_eq!(name.value, "Character");
    assert_eq!(name.loc, loc(3, 0));
    assert_eq!(m.description.unwrap().value, "A being");
    assert_eq!(m.context.unwrap().value, "Database");
    assert_eq!(m.scalar.unwrap().value, "MyScalar");
    let implementers: Vec<String> = m.implementers.iter().map(|s| s.value.clone()).collect();
    assert_eq!(implementers, vec!["Human".to_string(), "Droid".to_string()]);
    assert_eq!(m.implementers[1].loc, loc(3, 84));
    assert!(m.is_internal);
}

#[test]
fn empty_fragment_sets_nothing() {
    let m = InterfaceMeta::parse("   ", 0).unwrap();
    assert!(m.name.is_none());
    assert!(m.description.is_none());
    assert!(m.context.is_none());
    assert!(m.scalar.is_none());
    assert!(m.implementers.is_empty());
    assert!(!m.is_internal);
}

#[test]
fn key_aliases_and_optional_commas() {
    let m = InterfaceMeta::parse("description = \"d\" Context = Ctx, implementers(A,),", 0).unwrap();
    assert_eq!(m.description.unwrap().value, "d");
    assert_eq!(m.context.unwrap().value, "Ctx");
    assert_eq!(m.implementers.len(), 1);
    assert_eq!(m.implementers[0].value, "A");
}

#[test]
fn type_references_keep_their_text() {
    let m = InterfaceMeta::parse("ctx = Vec<  u8  >  , for(HashMap<String, Vec<u8>> , fn(u8) -> u8)", 0).unwrap();
    assert_eq!(m.context.unwrap().value, "Vec<  u8  >");
    assert_eq!(m.implementers[0].value, "HashMap<String, Vec<u8>>");
    assert_eq!(m.implementers[1].value, "fn(u8) -> u8");
}

#[test]
fn braces_in_a_type_hold_commas_and_angles() {
    let m = InterfaceMeta::parse("for(Foo<{ a > b }, X>, Y)", 0).unwrap();
    let implementers: Vec<String> = m.implementers.iter().map(|s| s.value.clone()).collect();
    assert_eq!(implementers, vec!["Foo<{ a > b }, X>".to_string(), "Y".to_string()]);
}

#[test]
fn string_literal_escapes_are_decoded() {
    let m = InterfaceMeta::parse("desc = \"line\\none \\\"two\\\"\"", 0).unwrap();
    assert_eq!(m.description.unwrap().value, "line\none \"two\"");
}

#[test]
fn name_twice_in_one_fragment() {
    let r = InterfaceMeta::parse("name = \"A\", name = \"B\"", 0);
    assert_eq!(
        r.err(),
        Some(Diagnostic::Duplicate { key: Key::Name, first: loc(0, 0), second: loc(0, 12) })
    );
}

#[test]
fn unknown_key_is_refused() {
    let r = InterfaceMeta::parse("foo = \"bar\"", 0);
    assert_eq!(r.err(), Some(Diagnostic::UnknownAttribute { at: loc(0, 0) }));
}

#[test]
fn unknown_key_after_valid_items_is_refused() {
    let r = InterfaceMeta::parse("name = \"A\", internal, foo = \"bar\"", 2);
    assert_eq!(r.err(), Some(Diagnostic::UnknownAttribute { at: loc(2, 22) }));
}

#[test]
fn missing_equals_is_a_syntax_error() {
    let r = InterfaceMeta::parse("name \"A\"", 0);
    assert_eq!(r.err(), Some(Diagnostic::Syntax { at: loc(0, 5) }));
}

#[test]
fn unterminated_string_is_a_syntax_error() {
    let r = InterfaceMeta::parse("name = \"A", 0);
    assert_eq!(r.err(), Some(Diagnostic::Syntax { at: loc(0, 7) }));
}

#[test]
fn key_must_start_with_a_letter() {
    let r = InterfaceMeta::parse("name = \"A\", 7", 0);
    assert_eq!(r.err(), Some(Diagnostic::Syntax { at: loc(0, 12) }));
}

#[test]
fn unclosed_implementer_list_is_a_syntax_error() {
    let r = InterfaceMeta::parse("for(A, B", 0);
    assert_eq!(r.err(), Some(Diagnostic::Syntax { at: loc(0, 8) }));
}

#[test]
fn invalid_escape_is_an_invalid_string() {
    let r = InterfaceMeta::parse("name = \"a\\qb\"", 0);
    assert_eq!(r.err(), Some(Diagnostic::InvalidString { at: loc(0, 7) }));
}

#[test]
fn non_type_is_an_invalid_type() {
    let r = InterfaceMeta::parse("ctx = 1 + 2", 0);
    assert_eq!(r.err(), Some(Diagnostic::InvalidType { at: loc(0, 6) }));
}

#[test]
fn empty_implementer_is_an_invalid_type() {
    let r = InterfaceMeta::parse("for(A,,B)", 0);
    assert_eq!(r.err(), Some(Diagnostic::InvalidType { at: loc(0, 6) }));
}

#[test]
fn implementer_spelled_twice_in_one_fragment() {
    let r = InterfaceMeta::parse("for(Human, Droid, Human)", 0);
    assert_eq!(
        r.err(),
        Some(Diagnostic::Duplicate { key: Key::Implementer, first: loc(0, 4), second: loc(0, 18) })
    );
}

#[test]
fn implementer_spellings_compare_without_trailing_space() {
    let r = InterfaceMeta::parse("for(Vec<u8>, Vec<u8> )", 0);
    assert_eq!(
        r.err(),
        Some(Diagnostic::Duplicate { key: Key::Implementer, first: loc(0, 4), second: loc(0, 13) })
    );
}

#[test]
fn differently_spaced_spellings_are_distinct_texts() {
    let m = InterfaceMeta::parse("for(Vec<u8>, Vec < u8 >)", 0).unwrap();
    assert_eq!(m.implementers.len(), 2);
}

#[test]
fn name_twice_across_fragments_cites_both() {
    let attrs = vec![attr("graphql_interface", "name = \"A\""), attr("graphql_interface", "for(Human), name = \"B\"")];
    let r = InterfaceMeta::from_attrs("graphql_interface", &attrs, None);
    assert_eq!(
        r.err(),
        Some(vec![Diagnostic::Duplicate { key: Key::Name, first: loc(0, 0), second: loc(1, 12) }])
    );
}

#[test]
fn implementer_twice_across_fragments_cites_both() {
    let attrs = vec![attr("graphql_interface", "for(Human)"), attr("graphql_interface", "for(Droid, Human)")];
    let r = InterfaceMeta::from_attrs("graphql_interface", &attrs, None);
    assert_eq!(
        r.err(),
        Some(vec![Diagnostic::Duplicate { key: Key::Implementer, first: loc(0, 4), second: loc(1, 11) }])
    );
}

#[test]
fn fragments_merge_in_order() {
    let attrs = vec![
        attr("graphql_interface", "name = \"Character\", for(Human)"),
        attr("doc", "ignored = 1"),
        attr("graphql_interface", "ctx = Db, internal, for(Droid)"),
        attr("graphql_interface", ""),
    ];
    let m = InterfaceMeta::from_attrs("graphql_interface", &attrs, None).unwrap();
    assert_eq!(m.name.unwrap().value, "Character");
    let ctx = m.context.unwrap();
    assert_eq!(ctx.value, "Db");
    assert_eq!(ctx.loc, loc(1, 0));
    let implementers: Vec<String> = m.implementers.iter().map(|s| s.value.clone()).collect();
    assert_eq!(implementers, vec!["Human".to_string(), "Droid".to_string()]);
    assert!(m.is_internal);
    assert!(m.description.is_none());
}

#[test]
fn doc_comment_stands_in_for_a_missing_description() {
    let doc = Spanned { value: "From the doc comment".to_string(), loc: loc(9, 0) };
    let m = InterfaceMeta::from_attrs("graphql_interface", &vec![attr("graphql_interface", "name = \"C\"")], Some(doc))
        .unwrap();
    assert_eq!(m.description.unwrap().value, "From the doc comment");
}

#[test]
fn explicit_description_wins_over_doc_comment() {
    let doc = Spanned { value: "From the doc comment".to_string(), loc: loc(9, 0) };
    let m = InterfaceMeta::from_attrs("graphql_interface", &vec![attr("graphql_interface", "desc = \"Given\"")], Some(doc))
        .unwrap();
    assert_eq!(m.description.unwrap().value, "Given");
}

#[test]
fn try_merge_ors_internal_flag_and_refuses_second_scalar() {
    let a = InterfaceMeta::parse("internal, scalar = S1", 0).unwrap();
    let b = InterfaceMeta::parse("for(X)", 1).unwrap();
    let m = a.try_merge(b).unwrap();
    assert!(m.is_internal);
    let c = InterfaceMeta::parse("scalar = S2", 2).unwrap();
    let r = m.try_merge(c);
    assert_eq!(
        r.err(),
        Some(vec![Diagnostic::Duplicate { key: Key::Scalar, first: loc(0, 10), second: loc(2, 0) }])
    );
}

#[test]
fn every_conflict_is_reported() {
    let attrs = vec![attr("graphql_interface", "name = \"A\", for(H)"), attr("graphql_interface", "name = \"B\", for(H), ctx = C")];
    let r = InterfaceMeta::from_attrs("graphql_interface", &attrs, None);
    assert_eq!(
        r.err(),
        Some(vec![
            Diagnostic::Duplicate { key: Key::Name, first: loc(0, 0), second: loc(1, 0) },
            Diagnostic::Duplicate { key: Key::Implementer, first: loc(0, 16), second: loc(1, 16) },
        ])
    );
}

#[test]
fn unparsable_fragment_is_reported_beside_conflicts() {
    let attrs = vec![
        attr("graphql_interface", "name = \"A\""),
        attr("graphql_interface", "foo = 1"),
        attr("graphql_interface", "name = \"B\""),
    ];
    let r = InterfaceMeta::from_attrs("graphql_interface", &attrs, None);
    assert_eq!(
        r.err(),
        Some(vec![
            Diagnostic::UnknownAttribute { at: loc(1, 0) },
            Diagnostic::Duplicate { key: Key::Name, first: loc(0, 0), second: loc(2, 0) },
        ])
    );
}

#[test]
fn unrelated_attributes_do_not_shift_places() {
    let named = vec![attr("graphql_interface", "name = \"A\""), attr("graphql_interface", "name = \"B\"")];
    let mixed = vec![
        attr("derive", "Debug"),
        attr("graphql_interface", "name = \"A\""),
        attr("graphql", "name = \"Z\""),
        attr("graphql_interface", "name = \"B\""),
    ];
    let a = InterfaceMeta::from_attrs("graphql_interface", &named, None).err();
    let b = InterfaceMeta::from_attrs("graphql_interface", &mixed, None).err();
    assert_eq!(a, b);
    assert_eq!(a, Some(vec![Diagnostic::Duplicate { key: Key::Name, first: loc(0, 0), second: loc(1, 0) }]));
}

#[test]
fn doc_comment_lines_lose_one_space_and_join() {
    let lines = vec![" First line.".to_string(), "  Indented.".to_string(), "".to_string(), "Last".to_string()];
    assert_eq!(doc_comment(&lines), Some("First line.\n Indented.\n\nLast".to_string()));
    assert_eq!(doc_comment(&vec![]), None);
}

#[test]
fn raw_string_literals_are_accepted() {
    let m = InterfaceMeta::parse("name = r\"Char\\acter\", desc = r#\"say \"hi\"\"#, ctx = C", 0).unwrap();
    assert_eq!(m.name.unwrap().value, "Char\\acter");
    assert_eq!(m.description.unwrap().value, "say \"hi\"");
    assert_eq!(m.context.unwrap().value, "C");
}

#[test]
fn unterminated_raw_string_is_a_syntax_error() {
    let r = InterfaceMeta::parse("desc = r#\"open\"", 0);
    assert_eq!(r.err(), Some(Diagnostic::Syntax { at: loc(0, 7) }));
}
