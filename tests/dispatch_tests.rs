use std::cell::RefCell;

use interface_dispatch::characters::{schema, Character, QueryRoot, Selection};
use interface_dispatch::config::InterfaceMeta;
use interface_dispatch::dispatch::{
    after_downcast, Continuation, ImplementerDefinition, InterfaceDefinition, MarkError, Route,
};

fn implementer(name: &str, runtime_type: u64, has_downcast: bool, has_check: bool) -> ImplementerDefinition {
    ImplementerDefinition {
        ty: name.to_string(),
        runtime_type,
        name: name.to_string(),
        has_downcast,
        has_check,
        context_ty: None,
        is_output_type: true,
    }
}

fn interface(is_trait_object: bool, implementers: Vec<ImplementerDefinition>) -> InterfaceDefinition {
    let meta = InterfaceMeta::parse("name = \"Character\"", 0).unwrap();
    InterfaceDefinition::new(meta, "CharacterValue".to_string(), is_trait_object, implementers)
}

fn select(alias: &str, field: &str, on: Option<&str>) -> Selection {
    Selection { alias: alias.to_string(), field: field.to_string(), on: on.map(|t| t.to_string()) }
}

fn pairs(v: &[(&str, &str)]) -> Vec<(String, String)> {
    v.iter().map(|(a, b)| (a.to_string(), b.to_string())).collect()
}

#[test]
fn resolves_id_for_human() {
    let schema = schema(QueryRoot::Human);
    let character = schema.query_root.character();
    let r = character.resolve_fields(&schema.character, &vec![select("id", "id", None)]);
    assert_eq!(r.unwrap(), pairs(&[("id", "human-32")]));
}

#[test]
fn resolves_id_for_droid() {
    let schema = schema(QueryRoot::Droid);
    let character = schema.query_root.character();
    let r = character.resolve_fields(&schema.character, &vec![select("id", "id", None)]);
    assert_eq!(r.unwrap(), pairs(&[("id", "droid-99")]));
}

#[test]
fn resolves_human() {
    let schema = schema(QueryRoot::Human);
    let character = schema.query_root.character();
    let selection = vec![select("humanId", "id", Some("Human")), select("homePlanet", "homePlanet", Some("Human"))];
    let r = character.resolve_fields(&schema.character, &selection);
    assert_eq!(r.unwrap(), pairs(&[("humanId", "human-32"), ("homePlanet", "earth")]));
}

#[test]
fn fragment_on_other_implementer_is_passed_over() {
    let schema = schema(QueryRoot::Droid);
    let character = schema.query_root.character();
    let selection = vec![
        select("humanId", "id", Some("Human")),
        select("homePlanet", "homePlanet", Some("Human")),
        select("primaryFunction", "primaryFunction", Some("Droid")),
    ];
    let r = character.resolve_fields(&schema.character, &selection);
    assert_eq!(r.unwrap(), pairs(&[("primaryFunction", "run")]));
}

#[test]
fn unknown_field_is_a_field_error() {
    let schema = schema(QueryRoot::Human);
    let character = schema.query_root.character();
    let r = character.resolve_fields(&schema.character, &vec![select("pf", "primaryFunction", None)]);
    assert_eq!(r.unwrap_err().alias, "pf");
}

#[test]
fn query_root_hands_out_its_character() {
    match QueryRoot::Droid.character() {
        Character::Droid(d) => {
            assert_eq!(d.id, "droid-99");
            assert_eq!(d.primary_function, "run");
        },
        Character::Human(_) => panic!("expected a droid"),
    }
    assert_eq!(QueryRoot::Human.character().id(), "human-32");
    assert_eq!(QueryRoot::Human.character().reported_name(), "Human");
}

#[test]
fn example_schema_passes_mark() {
    let schema = schema(QueryRoot::Human);
    assert_eq!(schema.character.mark(), Ok(()));
    assert_eq!(schema.character.name(), "Character");
}

#[test]
fn descriptor_takes_configured_name_else_type_name() {
    let d = interface(false, vec![]);
    assert_eq!(d.name(), "Character");
    let bare = InterfaceDefinition::new(InterfaceMeta::parse("", 0).unwrap(), "Hero".to_string(), false, vec![]);
    assert_eq!(bare.name(), "Hero");
    assert_eq!(bare.context_type(), "()");
    assert_eq!(bare.meta_description(), None);
}

#[test]
fn descriptor_keeps_context_and_description() {
    let meta = InterfaceMeta::parse("ctx = Database, desc = \"Someone\"", 0).unwrap();
    let d = InterfaceDefinition::new(meta, "Hero".to_string(), true, vec![]);
    assert_eq!(d.context_type(), "Database");
    assert_eq!(d.meta_description(), Some("Someone"));
}

#[test]
fn guard_of_a_names_a_not_b() {
    let d = interface(false, vec![implementer("Human", 1, false, true), implementer("Droid", 2, false, true)]);
    assert_eq!(d.concrete_type_name(|i| [true, false][i], "Other"), "Human");
    assert_eq!(d.concrete_type_name(|i| [false, true][i], "Other"), "Droid");
}

#[test]
fn first_firing_guard_wins_and_later_guards_are_not_evaluated() {
    let d = interface(
        true,
        vec![implementer("Human", 1, false, true), implementer("Droid", 2, false, true), implementer("Ewok", 3, false, true)],
    );
    let calls = RefCell::new(Vec::new());
    let name = d.concrete_type_name(
        |i| {
            calls.borrow_mut().push(i);
            i >= 1
        },
        "Other",
    );
    assert_eq!(name, "Droid");
    assert_eq!(*calls.borrow(), vec![0, 1]);
}

#[test]
fn implementer_without_guard_is_not_asked() {
    let d = interface(false, vec![implementer("Human", 1, false, false), implementer("Droid", 2, false, true)]);
    let calls = RefCell::new(Vec::new());
    let name = d.concrete_type_name(
        |i| {
            calls.borrow_mut().push(i);
            true
        },
        "Other",
    );
    assert_eq!(name, "Droid");
    assert_eq!(*calls.borrow(), vec![1]);
}

#[test]
fn polymorphic_value_without_guard_uses_own_name() {
    let d = interface(true, vec![implementer("Human", 1, false, true), implementer("Droid", 2, false, false)]);
    assert_eq!(d.concrete_type_name(|_| false, "Droid"), "Droid");
}

#[test]
fn request_for_a_goes_to_a_custom_downcast() {
    let d = interface(false, vec![implementer("Human", 1, true, false), implementer("Droid", 2, true, false)]);
    assert_eq!(d.route_into_type("Droid"), Route::Custom(1));
    assert_eq!(d.route_into_type("Human"), Route::Custom(0));
    let next: Continuation<u8, &str, String> = after_downcast(Ok(Some((7u8, "droid"))));
    assert_eq!(next, Continuation::Resolve(7, "droid"));
}

#[test]
fn downcast_outcomes() {
    let none: Continuation<u8, u8, String> = after_downcast(Ok(None));
    assert_eq!(none, Continuation::Null);
    let failed: Continuation<u8, u8, String> = after_downcast(Err("boom".to_string()));
    assert_eq!(failed, Continuation::Fail("boom".to_string()));
}

#[test]
fn unmatched_request_on_concrete_interface_is_unreachable() {
    let d = interface(false, vec![implementer("Human", 1, false, false), implementer("Droid", 2, true, false)]);
    assert_eq!(d.route_into_type("Human"), Route::Unreachable);
}

#[test]
fn unmatched_request_on_polymorphic_interface_is_dynamic() {
    let d = interface(true, vec![implementer("Human", 1, false, false), implementer("Droid", 2, true, false)]);
    assert_eq!(d.route_into_type("Human"), Route::Dynamic);
    assert_eq!(d.route_into_type("Droid"), Route::Custom(1));
}

#[test]
fn same_type_through_two_spellings_is_refused() {
    let mut alias = implementer("HumanAlias", 1, false, false);
    alias.name = "Human".to_string();
    let d = interface(true, vec![implementer("Human", 1, false, false), implementer("Droid", 2, false, false), alias]);
    assert_eq!(d.mark(), Err(MarkError::DuplicateImplementer { first: 0, second: 2 }));
}

#[test]
fn first_repeated_type_is_reported() {
    let d = interface(
        true,
        vec![
            implementer("A", 5, false, false),
            implementer("B", 6, false, false),
            implementer("C", 6, false, false),
            implementer("D", 5, false, false),
        ],
    );
    assert_eq!(d.mark(), Err(MarkError::DuplicateImplementer { first: 1, second: 2 }));
}

#[test]
fn implementer_that_is_no_output_type_is_refused() {
    let mut b = implementer("B", 2, false, false);
    b.is_output_type = false;
    let d = interface(true, vec![implementer("A", 1, false, false), b]);
    assert_eq!(d.mark(), Err(MarkError::NotOutputType { index: 1 }));
}

#[test]
fn single_or_no_implementer_passes_mark() {
    assert_eq!(interface(false, vec![]).mark(), Ok(()));
    assert_eq!(interface(false, vec![implementer("A", 1, false, false)]).mark(), Ok(()));
}

#[test]
fn resolve_into_named_implementer_returns_its_own_resolution() {
    let d = interface(false, vec![implementer("Human", 1, true, false), implementer("Droid", 2, true, false)]);
    let r: Result<Option<String>, String> = d.resolve_into_type(
        "Droid",
        |i| Ok(Some((format!("ctx{}", i), "droid-99"))),
        |i, ctx, v| Ok(format!("{}:{}:{}", i, ctx, v)),
        || Ok(Some("dynamic".to_string())),
    );
    assert_eq!(r, Ok(Some("1:ctx1:droid-99".to_string())));
}

#[test]
fn resolve_into_type_absent_downcast_is_null() {
    let d = interface(false, vec![implementer("Human", 1, true, false)]);
    let r: Result<Option<String>, String> = d.resolve_into_type(
        "Human",
        |_| Ok(None::<(u8, u8)>),
        |_, _, _| Ok("resolved".to_string()),
        || Ok(Some("dynamic".to_string())),
    );
    assert_eq!(r, Ok(None));
}

#[test]
fn resolve_into_type_failed_downcast_is_a_field_error() {
    let d = interface(false, vec![implementer("Human", 1, true, false)]);
    let r: Result<Option<String>, String> = d.resolve_into_type(
        "Human",
        |_| Err::<Option<(u8, u8)>, String>("conversion failed".to_string()),
        |_, _, _| Ok("resolved".to_string()),
        || Ok(Some("dynamic".to_string())),
    );
    assert_eq!(r, Err("conversion failed".to_string()));
}

#[test]
fn resolve_into_type_implementer_error_propagates() {
    let d = interface(false, vec![implementer("Human", 1, true, false)]);
    let r: Result<Option<String>, String> = d.resolve_into_type(
        "Human",
        |_| Ok(Some((0u8, 0u8))),
        |_, _, _| Err("no such field".to_string()),
        || Ok(Some("dynamic".to_string())),
    );
    assert_eq!(r, Err("no such field".to_string()));
}

#[test]
fn resolve_into_type_polymorphic_unmatched_delegates() {
    let d = interface(true, vec![implementer("Human", 1, true, false)]);
    let r: Result<Option<String>, String> = d.resolve_into_type(
        "Droid",
        |_| Ok(Some((0u8, 0u8))),
        |_, _, _| Ok("custom".to_string()),
        || Ok(Some("dynamic".to_string())),
    );
    assert_eq!(r, Ok(Some("dynamic".to_string())));
}
