//! An interface `Character` with two implementers, `Human` and `Droid`,
//! and a query root whose `character` field returns one of them.

use vstd::prelude::*;
use crate::dispatch::{ImplementerDefinition, InterfaceDefinition};

verus! {

pub struct Human {
    pub id: String,
    pub home_planet: String,
}

pub struct Droid {
    pub id: String,
    pub primary_function: String,
}

/// A value of the interface: one case for each implementer.
pub enum Character {
    Human(Human),
    Droid(Droid),
}

/// Which character the query root hands out.
#[derive(PartialEq, Eq, Structural, Clone, Copy, Debug)]
pub enum QueryRoot {
    Human,
    Droid,
}

/// One field to resolve on the character: the key it is reported under, the
/// field's name, and the type it is asked on, if it stands in a fragment.
pub struct Selection {
    pub alias: String,
    pub field: String,
    pub on: Option<String>,
}

/// A field error: the field under this key does not exist on the resolved type.
#[derive(Debug)]
pub struct FieldError {
    pub alias: String,
}

/// The schema: the query root and the descriptor of the interface.
pub struct RootNode {
    pub query_root: QueryRoot,
    pub character: InterfaceDefinition,
}

impl Character {
    /// The name that the value reports as its own concrete type.
    pub open spec fn reported_name_of(&self) -> Seq<char> {
        match self {
            Character::Human(_) => "Human"@,
            Character::Droid(_) => "Droid"@,
        }
    }

    /// The value of a field of the concrete type, by the field's name in the schema.
    pub open spec fn field_of(&self, field: Seq<char>) -> Option<Seq<char>> {
        match self {
            Character::Human(h) => if field == "id"@ {
                Some(h.id@)
            } else if field == "homePlanet"@ {
                Some(h.home_planet@)
            } else {
                None
            },
            Character::Droid(d) => if field == "id"@ {
                Some(d.id@)
            } else if field == "primaryFunction"@ {
                Some(d.primary_function@)
            } else {
                None
            },
        }
    }

    pub fn reported_name(&self) -> (r: &str)
        ensures
            r@ == self.reported_name_of(),
    {
        match self {
            Character::Human(_) => "Human",
            Character::Droid(_) => "Droid",
        }
    }

    /// The identifier, which every implementer has.
    pub fn id(&self) -> (r: &str)
        ensures
            r@ == self.field_of("id"@).unwrap(),
    {
        match self {
            Character::Human(h) => h.id.as_str(),
            Character::Droid(d) => d.id.as_str(),
        }
    }

    pub fn field(&self, field: &str) -> (r: Option<String>)
        ensures
            match r {
                Some(v) => self.field_of(field@) == Some(v@),
                None => self.field_of(field@).is_none(),
            },
    {
        let f = field.to_owned();
        let id = String::from_str("id");
        match self {
            Character::Human(h) => {
                if f == id {
                    Some(h.id.clone())
                } else if f == String::from_str("homePlanet") {
                    Some(h.home_planet.clone())
                } else {
                    None
                }
            },
            Character::Droid(d) => {
                if f == id {
                    Some(d.id.clone())
                } else if f == String::from_str("primaryFunction") {
                    Some(d.primary_function.clone())
                } else {
                    None
                }
            },
        }
    }
}

impl QueryRoot {
    /// The character of this root: the human `human-32` from earth, or the
    /// droid `droid-99` whose function is to run.
    pub fn character(&self) -> (r: Character)
        ensures
            match self {
                QueryRoot::Human => r matches Character::Human(h) && h.id@ == "human-32"@ && h.home_planet@
                    == "earth"@,
                QueryRoot::Droid => r matches Character::Droid(d) && d.id@ == "droid-99"@ && d.primary_function@
                    == "run"@,
            },
    {
        match self {
            QueryRoot::Human => Character::Human(
                Human { id: String::from_str("human-32"), home_planet: String::from_str("earth") },
            ),
            QueryRoot::Droid => Character::Droid(
                Droid { id: String::from_str("droid-99"), primary_function: String::from_str("run") },
            ),
        }
    }
}

/// The descriptor of `Character`: a polymorphic interface, named after its
/// type, whose implementers `Human` and `Droid` are reached by their own
/// dynamic names, with no custom downcast.
pub open spec fn is_character_interface(d: InterfaceDefinition) -> bool {
    &&& d.name@ == "Character"@
    &&& d.is_trait_object
    &&& d.description.is_none()
    &&& d.context.is_none()
    &&& d.scalar.is_none()
    &&& d.implementers@.len() == 2
    &&& d.implementers@[0].name@ == "Human"@
    &&& d.implementers@[1].name@ == "Droid"@
    &&& d.implementers@[0].runtime_type != d.implementers@[1].runtime_type
    &&& forall|i: int|
        0 <= i < 2 ==> {
            &&& !(#[trigger] d.implementers@[i]).has_downcast
            &&& !d.implementers@[i].has_check
            &&& d.implementers@[i].context_ty.is_none()
            &&& d.implementers@[i].is_output_type
        }
}

fn implementer(name: &str, runtime_type: u64) -> (r: ImplementerDefinition)
    ensures
        r.ty@ == name@,
        r.name@ == name@,
        r.runtime_type == runtime_type,
        !r.has_downcast,
        !r.has_check,
        r.context_ty.is_none(),
        r.is_output_type,
{
    ImplementerDefinition {
        ty: name.to_owned(),
        runtime_type,
        name: name.to_owned(),
        has_downcast: false,
        has_check: false,
        context_ty: None,
        is_output_type: true,
    }
}

/// The schema with the given query root.
pub fn schema(query_root: QueryRoot) -> (r: RootNode)
    ensures
        r.query_root == query_root,
        is_character_interface(r.character),
{
    let mut implementers: Vec<ImplementerDefinition> = Vec::new();
    implementers.push(implementer("Human", 0));
    implementers.push(implementer("Droid", 1));
    let character = InterfaceDefinition {
        name: String::from_str("Character"),
        ty: String::from_str("Character"),
        is_trait_object: true,
        description: None,
        context: None,
        scalar: None,
        implementers,
    };
    RootNode { query_root, character }
}

/// A resolved field: the key it is reported under and its value.
pub open spec fn pair_views(v: Seq<(String, String)>) -> Seq<(Seq<char>, Seq<char>)> {
    v.map_values(|p: (String, String)| (p.0@, p.1@))
}

/// Whether the selection applies to a value whose concrete type is `concrete`.
pub open spec fn applies(s: Selection, concrete: Seq<char>) -> bool {
    match s.on {
        Some(t) => t@ == concrete,
        None => true,
    }
}

/// The selections `sel[k..]` resolved on `c` of concrete type `concrete`,
/// after the fields `acc`: the first that does not exist fails.
pub open spec fn resolve_from(
    c: Character,
    concrete: Seq<char>,
    sel: Seq<Selection>,
    k: int,
    acc: Seq<(Seq<char>, Seq<char>)>,
) -> Result<Seq<(Seq<char>, Seq<char>)>, Seq<char>>
    decreases sel.len() - k,
{
    if k < 0 || k >= sel.len() {
        Ok(acc)
    } else if !applies(sel[k], concrete) {
        resolve_from(c, concrete, sel, k + 1, acc)
    } else {
        match c.field_of(sel[k].field@) {
            Some(v) => resolve_from(c, concrete, sel, k + 1, acc.push((sel[k].alias@, v))),
            None => Err(sel[k].alias@),
        }
    }
}

impl Character {
    /// Resolves a selection on the character through the interface: its
    /// concrete type is found by dispatch, fragments on other types are
    /// passed over, and fields are read from the concrete value.
    pub fn resolve_fields(&self, interface: &InterfaceDefinition, selection: &Vec<Selection>) -> (r: Result<Vec<(String, String)>, FieldError>)
        requires
            is_character_interface(*interface),
        ensures
            match r {
                Ok(v) => resolve_from(*self, self.reported_name_of(), selection@, 0, Seq::empty()) == Ok::<
                    Seq<(Seq<char>, Seq<char>)>,
                    Seq<char>,
                >(pair_views(v@)),
                Err(e) => resolve_from(*self, self.reported_name_of(), selection@, 0, Seq::empty()) == Err::<
                    Seq<(Seq<char>, Seq<char>)>,
                    Seq<char>,
                >(e.alias@),
            },
    {
        let never = |i: usize| -> (b: bool)
            ensures
                !b,
            { false };
        let concrete = interface.concrete_type_name(never, self.reported_name());
        proof {
            let fires = |i: int, b: bool| never.ensures((i as usize,), b);
            if !(concrete@ == self.reported_name_of()) {
                let k = choose|k: int|
                    0 <= k < interface.implementers@.len() && #[trigger] interface.implementers@[k].has_check
                        && fires(k, true) && concrete@ == interface.implementers@[k].name@ && forall|j: int|
                        0 <= j < k && #[trigger] interface.implementers@[j].has_check ==> fires(j, false);
                assert(never.ensures((k as usize,), true));
            }
        }
        let mut out: Vec<(String, String)> = Vec::new();
        assert(pair_views(out@) =~= Seq::<(Seq<char>, Seq<char>)>::empty());
        let n = selection.len();
        let mut k: usize = 0;
        while k < n
            invariant
                n == selection@.len(),
                concrete@ == self.reported_name_of(),
                0 <= k <= n,
                resolve_from(*self, self.reported_name_of(), selection@, 0, Seq::empty())
                    == resolve_from(*self, self.reported_name_of(), selection@, k as int, pair_views(out@)),
            decreases n - k,
        {
            let s = &selection[k];
            let wanted = match &s.on {
                Some(t) => *t == concrete,
                None => true,
            };
            if wanted {
                match self.field(s.field.as_str()) {
                    Some(v) => {
                        let ghost before = pair_views(out@);
                        out.push((s.alias.clone(), v));
                        assert(pair_views(out@) =~= before.push((s.alias@, self.field_of(s.field@).unwrap())));
                    },
                    None => return Err(FieldError { alias: s.alias.clone() }),
                }
            }
            k = k + 1;
        }
        Ok(out)
    }
}

} // verus!
