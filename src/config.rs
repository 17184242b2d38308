//! The merged configuration of an interface, and how fragments of it combine.

use vstd::prelude::*;
use crate::parse::parse_fragment;

verus! {

/// A place in the declarations: which fragment, and which character of it.
#[derive(PartialEq, Eq, Structural, Clone, Copy, Debug)]
pub struct Loc {
    pub fragment: usize,
    pub offset: usize,
}

/// A configured value with the place that set it.
#[derive(Debug)]
pub struct Spanned {
    pub value: String,
    pub loc: Loc,
}

/// The keys that may be given at most once.
#[derive(PartialEq, Eq, Structural, Clone, Copy, Debug)]
pub enum Key {
    Name,
    Description,
    Context,
    Scalar,
    Implementer,
}

/// Why a configuration is refused.
#[derive(PartialEq, Eq, Structural, Clone, Copy, Debug)]
pub enum Diagnostic {
    /// The key was set at `first` and again at `second`.
    Duplicate { key: Key, first: Loc, second: Loc },
    /// An unrecognized key.
    UnknownAttribute { at: Loc },
    /// The text breaks the argument grammar here.
    Syntax { at: Loc },
    /// The string literal starting here is not a valid one.
    InvalidString { at: Loc },
    /// The type reference starting here is not a valid type.
    InvalidType { at: Loc },
}

/// A configured value, as a mathematical pair.
pub type SpannedView = (Seq<char>, Loc);

impl View for Spanned {
    type V = SpannedView;

    open spec fn view(&self) -> SpannedView {
        (self.value@, self.loc)
    }
}

/// The view of an optional configured value.
pub open spec fn opt_view(o: Option<Spanned>) -> Option<SpannedView> {
    match o {
        Some(s) => Some(s@),
        None => None,
    }
}

/// The merged configuration, as mathematical values.
pub struct MetaView {
    pub name: Option<SpannedView>,
    pub description: Option<SpannedView>,
    pub context: Option<SpannedView>,
    pub scalar: Option<SpannedView>,
    pub implementers: Seq<SpannedView>,
    pub is_internal: bool,
}

/// The configuration of one interface: from one fragment, or merged from several.
pub struct InterfaceMeta {
    /// Name in the schema; the declared type's own name when absent.
    pub name: Option<Spanned>,
    /// Description; a doc comment, if any, when absent.
    pub description: Option<Spanned>,
    /// Context type; the unit type when absent.
    pub context: Option<Spanned>,
    /// Value-representation type; generic when absent.
    pub scalar: Option<Spanned>,
    /// Implementer types, in declaration order, none spelled twice.
    pub implementers: Vec<Spanned>,
    /// Whether the interface is for use inside the library that declares it.
    pub is_internal: bool,
}

impl View for InterfaceMeta {
    type V = MetaView;

    open spec fn view(&self) -> MetaView {
        MetaView {
            name: opt_view(self.name),
            description: opt_view(self.description),
            context: opt_view(self.context),
            scalar: opt_view(self.scalar),
            implementers: spanned_views(self.implementers@),
            is_internal: self.is_internal,
        }
    }
}

/// No implementer type is spelled twice.
pub open spec fn distinct_spellings(s: Seq<SpannedView>) -> bool {
    forall|i: int, j: int| 0 <= i < j < s.len() ==> s[i].0 != s[j].0
}

impl MetaView {
    pub open spec fn wf(self) -> bool {
        distinct_spellings(self.implementers)
    }
}

/// The configuration with nothing set.
pub open spec fn empty_meta() -> MetaView {
    MetaView {
        name: None,
        description: None,
        context: None,
        scalar: None,
        implementers: Seq::empty(),
        is_internal: false,
    }
}

/// Sets a key that may be set once: a second value is a duplicate.
pub open spec fn set_once(key: Key, cur: Option<SpannedView>, new: Option<SpannedView>) -> Result<Option<SpannedView>, Diagnostic> {
    match (cur, new) {
        (Some(a), Some(b)) => Err(Diagnostic::Duplicate { key, first: a.1, second: b.1 }),
        (Some(a), None) => Ok(Some(a)),
        (None, n) => Ok(n),
    }
}

/// Adds an implementer: a spelling seen before is a duplicate.
pub open spec fn add_implementer(cur: Seq<SpannedView>, item: SpannedView) -> Result<Seq<SpannedView>, Diagnostic> {
    match first_spelled(cur, item.0) {
        Some(i) => Err(Diagnostic::Duplicate { key: Key::Implementer, first: cur[i].1, second: item.1 }),
        None => Ok(cur.push(item)),
    }
}

/// Index of the first entry spelled `t`.
pub open spec fn first_spelled(cur: Seq<SpannedView>, t: Seq<char>) -> Option<int> {
    crate::dispatch::first_true(Seq::new(cur.len(), |i: int| cur[i].0 == t))
}


/// Sets a key that may be set once, across fragments: a second value is
/// reported, and the first one stays.
pub open spec fn keep_once(key: Key, cur: Option<SpannedView>, new: Option<SpannedView>) -> (Option<SpannedView>, Seq<Diagnostic>) {
    match (cur, new) {
        (Some(a), Some(b)) => (Some(a), seq![Diagnostic::Duplicate { key, first: a.1, second: b.1 }]),
        (Some(a), None) => (Some(a), Seq::empty()),
        (None, n) => (n, Seq::empty()),
    }
}

/// Adds the implementers `items[k..]` in order to `cur`: each spelling seen
/// before is reported after `diags` and left out.
pub open spec fn gather_implementers(
    cur: Seq<SpannedView>,
    items: Seq<SpannedView>,
    k: int,
    diags: Seq<Diagnostic>,
) -> (Seq<SpannedView>, Seq<Diagnostic>)
    decreases items.len() - k,
{
    if k < 0 || k >= items.len() {
        (cur, diags)
    } else {
        match add_implementer(cur, items[k]) {
            Ok(next) => gather_implementers(next, items, k + 1, diags),
            Err(d) => gather_implementers(cur, items, k + 1, diags.push(d)),
        }
    }
}

pub proof fn lemma_add_implementer_wf(cur: Seq<SpannedView>, item: SpannedView)
    requires
        distinct_spellings(cur),
    ensures
        add_implementer(cur, item) matches Ok(next) ==> distinct_spellings(next),
{
    let same = Seq::new(cur.len(), |i: int| cur[i].0 == item.0);
    crate::dispatch::lemma_first_true_from(same, 0);
    if first_spelled(cur, item.0).is_none() {
        let next = cur.push(item);
        assert forall|i: int, j: int| 0 <= i < j < next.len() implies next[i].0 != next[j].0 by {
            if j == cur.len() {
                assert(!same[i]);
            }
        }
    }
}

pub proof fn lemma_gather_implementers_wf(cur: Seq<SpannedView>, items: Seq<SpannedView>, k: int, diags: Seq<Diagnostic>)
    requires
        distinct_spellings(cur),
    ensures
        distinct_spellings(gather_implementers(cur, items, k, diags).0),
    decreases items.len() - k,
{
    if 0 <= k < items.len() {
        lemma_add_implementer_wf(cur, items[k]);
        match add_implementer(cur, items[k]) {
            Ok(next) => lemma_gather_implementers_wf(next, items, k + 1, diags),
            Err(d) => lemma_gather_implementers_wf(cur, items, k + 1, diags.push(d)),
        }
    }
}

/// Gathering implementers only adds to the problems already found.
pub proof fn lemma_gather_keeps_prefix(cur: Seq<SpannedView>, items: Seq<SpannedView>, k: int, diags: Seq<Diagnostic>)
    ensures
        ({
            let ds = gather_implementers(cur, items, k, diags).1;
            ds.len() >= diags.len() && forall|i: int| 0 <= i < diags.len() ==> ds[i] == diags[i]
        }),
    decreases items.len() - k,
{
    if 0 <= k < items.len() {
        match add_implementer(cur, items[k]) {
            Ok(next) => lemma_gather_keeps_prefix(next, items, k + 1, diags),
            Err(d) => {
                lemma_gather_keeps_prefix(cur, items, k + 1, diags.push(d));
            },
        }
    }
}

/// Merges two configurations, with every conflict found on the way: each key
/// set in both (name, description, context, value-representation type, in
/// that order), then each implementer of `b` spelled as an earlier one. The
/// implementers of `b` follow those of `a`; the internal flag is set when
/// either sets it.
pub open spec fn merge_all(a: MetaView, b: MetaView) -> (MetaView, Seq<Diagnostic>) {
    let (name, d1) = keep_once(Key::Name, a.name, b.name);
    let (description, d2) = keep_once(Key::Description, a.description, b.description);
    let (context, d3) = keep_once(Key::Context, a.context, b.context);
    let (scalar, d4) = keep_once(Key::Scalar, a.scalar, b.scalar);
    let (implementers, diags) = gather_implementers(a.implementers, b.implementers, 0, d1 + d2 + d3 + d4);
    (MetaView { name, description, context, scalar, implementers, is_internal: a.is_internal || b.is_internal }, diags)
}

/// The merged configuration where nothing conflicts, else all the conflicts.
pub open spec fn merge(a: MetaView, b: MetaView) -> Result<MetaView, Seq<Diagnostic>> {
    let (m, diags) = merge_all(a, b);
    if diags.len() == 0 {
        Ok(m)
    } else {
        Err(diags)
    }
}

/// The views of a list of configured values.
pub open spec fn spanned_views(v: Seq<Spanned>) -> Seq<SpannedView> {
    v.map_values(|s: Spanned| s@)
}

fn keep_once_value(key: Key, cur: Option<Spanned>, new: Option<Spanned>, diags: &mut Vec<Diagnostic>) -> (r: Option<Spanned>)
    ensures
        opt_view(r) == keep_once(key, opt_view(cur), opt_view(new)).0,
        final(diags)@ == old(diags)@ + keep_once(key, opt_view(cur), opt_view(new)).1,
{
    match (cur, new) {
        (Some(a), Some(b)) => {
            diags.push(Diagnostic::Duplicate { key, first: a.loc, second: b.loc });
            Some(a)
        },
        (Some(a), None) => {
            assert(diags@ =~= diags@ + Seq::<Diagnostic>::empty());
            Some(a)
        },
        (None, n) => {
            assert(diags@ =~= diags@ + Seq::<Diagnostic>::empty());
            n
        },
    }
}

/// Adds an implementer to `cur`, refusing a spelling that is already there.
pub fn push_implementer(cur: &mut Vec<Spanned>, item: Spanned) -> (r: Result<(), Diagnostic>)
    ensures
        match r {
            Ok(()) => add_implementer(spanned_views(old(cur)@), item@) == Ok::<Seq<SpannedView>, Diagnostic>(
                spanned_views(final(cur)@),
            ),
            Err(e) => add_implementer(spanned_views(old(cur)@), item@) == Err::<Seq<SpannedView>, Diagnostic>(e)
                && final(cur)@ == old(cur)@,
        },
{
    let ghost views = spanned_views(cur@);
    let ghost same = Seq::new(views.len(), |i: int| views[i].0 == item.value@);
    let n = cur.len();
    let mut i: usize = 0;
    while i < n
        invariant
            n == cur@.len(),
            views == spanned_views(cur@),
            same == Seq::new(views.len(), |i: int| views[i].0 == item.value@),
            0 <= i <= n,
            crate::dispatch::first_true_from(same, 0) == crate::dispatch::first_true_from(same, i as int),
        decreases n - i,
    {
        if cur[i].value == item.value {
            return Err(Diagnostic::Duplicate { key: Key::Implementer, first: cur[i].loc, second: item.loc });
        }
        i = i + 1;
    }
    cur.push(item);
    assert(spanned_views(cur@) =~= views.push(item@));
    Ok(())
}

impl Default for InterfaceMeta {
    fn default() -> (r: Self)
        ensures
            r@ == empty_meta(),
    {
        let r = InterfaceMeta {
            name: None,
            description: None,
            context: None,
            scalar: None,
            implementers: Vec::new(),
            is_internal: false,
        };
        assert(r@.implementers =~= Seq::<SpannedView>::empty());
        r
    }
}

impl InterfaceMeta {
    /// Merges two configurations into one; every key that both set and every
    /// implementer type that both spell alike is reported.
    pub fn try_merge(self, another: Self) -> (r: Result<Self, Vec<Diagnostic>>)
        ensures
            match r {
                Ok(m) => merge(self@, another@) == Ok::<MetaView, Seq<Diagnostic>>(m@),
                Err(ds) => merge(self@, another@) == Err::<MetaView, Seq<Diagnostic>>(ds@),
            },
            self@.wf() ==> (r matches Ok(m) ==> m@.wf()),
    {
        let (m, diags) = self.merge_reporting(another);
        if diags.len() == 0 {
            Ok(m)
        } else {
            Err(diags)
        }
    }

    /// Merges two configurations, keeping the first value of each conflict,
    /// and returns the conflicts beside the result.
    pub fn merge_reporting(self, another: Self) -> (r: (Self, Vec<Diagnostic>))
        ensures
            r.0@ == merge_all(self@, another@).0,
            r.1@ == merge_all(self@, another@).1,
            self@.wf() ==> r.0@.wf(),
    {
        let ghost a = self@;
        let ghost b = another@;
        let mut diags: Vec<Diagnostic> = Vec::new();
        let name = keep_once_value(Key::Name, self.name, another.name, &mut diags);
        let description = keep_once_value(Key::Description, self.description, another.description, &mut diags);
        let context = keep_once_value(Key::Context, self.context, another.context, &mut diags);
        let scalar = keep_once_value(Key::Scalar, self.scalar, another.scalar, &mut diags);
        let ghost head = diags@;
        proof {
            let d1 = keep_once(Key::Name, a.name, b.name).1;
            let d2 = keep_once(Key::Description, a.description, b.description).1;
            let d3 = keep_once(Key::Context, a.context, b.context).1;
            let d4 = keep_once(Key::Scalar, a.scalar, b.scalar).1;
            assert(head =~= d1 + d2 + d3 + d4);
            if a.wf() {
                lemma_gather_implementers_wf(a.implementers, b.implementers, 0, head);
            }
        }
        let mut implementers = self.implementers;
        let items = another.implementers;
        let n = items.len();
        let mut k: usize = 0;
        while k < n
            invariant
                n == items@.len(),
                spanned_views(items@) == b.implementers,
                0 <= k <= n,
                gather_implementers(a.implementers, b.implementers, 0, head) == gather_implementers(
                    spanned_views(implementers@),
                    b.implementers,
                    k as int,
                    diags@,
                ),
            decreases n - k,
        {
            let item = Spanned { value: items[k].value.clone(), loc: items[k].loc };
            assert(item@ == b.implementers[k as int]);
            match push_implementer(&mut implementers, item) {
                Ok(()) => {},
                Err(d) => diags.push(d),
            }
            k = k + 1;
        }
        let m = InterfaceMeta {
            name,
            description,
            context,
            scalar,
            implementers,
            is_internal: self.is_internal || another.is_internal,
        };
        assert(m@ == merge_all(a, b).0);
        (m, diags)
    }
}

/// A doc-comment line without the one space that usually follows `///`.
pub open spec fn strip_one_space(l: Seq<char>) -> Seq<char> {
    if l.len() > 0 && l[0] == ' ' {
        l.subrange(1, l.len() as int)
    } else {
        l
    }
}

/// The text of doc-comment lines: each stripped of one leading space, joined by newlines.
pub open spec fn doc_join(lines: Seq<Seq<char>>) -> Seq<char>
    decreases lines.len(),
{
    if lines.len() == 0 {
        Seq::empty()
    } else if lines.len() == 1 {
        strip_one_space(lines[0])
    } else {
        doc_join(lines.drop_last()) + seq!['\n'] + strip_one_space(lines.last())
    }
}

/// The description that doc-comment lines give, if there are any.
pub fn doc_comment(lines: &Vec<String>) -> (r: Option<String>)
    ensures
        lines@.len() == 0 ==> r.is_none(),
        lines@.len() > 0 ==> (r matches Some(t) && t@ == doc_join(lines@.map_values(|l: String| l@))),
{
    let ghost views = lines@.map_values(|l: String| l@);
    if lines.len() == 0 {
        return None;
    }
    let mut text = String::new();
    let n = lines.len();
    let mut k: usize = 0;
    while k < n
        invariant
            n == lines@.len(),
            n > 0,
            views == lines@.map_values(|l: String| l@),
            0 <= k <= n,
            k > 0 ==> text@ == doc_join(views.subrange(0, k as int)),
            k == 0 ==> text@ == Seq::<char>::empty(),
        decreases n - k,
    {
        let line = lines[k].as_str();
        let len = line.unicode_len();
        let part = if len > 0 && line.get_char(0) == ' ' {
            line.substring_char(1, len)
        } else {
            line
        };
        assert(part@ == strip_one_space(views[k as int]));
        if k > 0 {
            proof {
                reveal_strlit("\n");
            }
            text.append("\n");
        }
        text.append(part);
        proof {
            let next = views.subrange(0, k + 1);
            assert(next.drop_last() =~= views.subrange(0, k as int));
            if k == 0 {
                assert(text@ =~= strip_one_space(views[0]));
            } else {
                assert(text@ =~= doc_join(next.drop_last()) + seq!['\n'] + strip_one_space(next.last()));
            }
        }
        k = k + 1;
    }
    assert(views.subrange(0, n as int) =~= views);
    Some(text)
}

/// One attribute on the declaration: its path and the text of its arguments.
pub struct Attribute {
    pub path: String,
    pub args: String,
}

/// The fragments from the attributes `attrs[k..]` named `name`, merged into
/// `acc` in order, with the problems found after `diags`. `f` counts the
/// attributes named `name` before `k`: it is the fragment index of the places
/// in the next one. A fragment that does not parse is reported and left out.
pub open spec fn merge_attrs_from(
    name: Seq<char>,
    attrs: Seq<Attribute>,
    k: int,
    f: nat,
    acc: MetaView,
    diags: Seq<Diagnostic>,
) -> (MetaView, Seq<Diagnostic>)
    decreases attrs.len() - k,
{
    if k < 0 || k >= attrs.len() {
        (acc, diags)
    } else if attrs[k].path@ == name {
        match parse_fragment(attrs[k].args@, f as usize) {
            Err(d) => merge_attrs_from(name, attrs, k + 1, f + 1, acc, diags.push(d)),
            Ok(m) => {
                let (next, ds) = merge_all(acc, m);
                merge_attrs_from(name, attrs, k + 1, f + 1, next, diags + ds)
            },
        }
    } else {
        merge_attrs_from(name, attrs, k + 1, f, acc, diags)
    }
}

/// The configuration from all attributes named `name`, or every problem
/// found in them; without a description there, the doc comment stands in.
pub open spec fn from_attrs_of(name: Seq<char>, attrs: Seq<Attribute>, doc: Option<SpannedView>) -> Result<MetaView, Seq<Diagnostic>> {
    let (m, diags) = merge_attrs_from(name, attrs, 0, 0, empty_meta(), Seq::empty());
    if diags.len() > 0 {
        Err(diags)
    } else if m.description.is_none() {
        Ok(MetaView { description: doc, ..m })
    } else {
        Ok(m)
    }
}

proof fn lemma_merge_attrs_wf(name: Seq<char>, attrs: Seq<Attribute>, k: int, f: nat, acc: MetaView, diags: Seq<Diagnostic>)
    requires
        acc.wf(),
    ensures
        merge_attrs_from(name, attrs, k, f, acc, diags).0.wf(),
    decreases attrs.len() - k,
{
    if 0 <= k < attrs.len() {
        if attrs[k].path@ == name {
            match parse_fragment(attrs[k].args@, f as usize) {
                Err(d) => lemma_merge_attrs_wf(name, attrs, k + 1, f + 1, acc, diags.push(d)),
                Ok(m) => {
                    let d4 = keep_once(Key::Name, acc.name, m.name).1 + keep_once(
                        Key::Description,
                        acc.description,
                        m.description,
                    ).1 + keep_once(Key::Context, acc.context, m.context).1 + keep_once(Key::Scalar, acc.scalar, m.scalar).1;
                    lemma_gather_implementers_wf(acc.implementers, m.implementers, 0, d4);
                    let (next, ds) = merge_all(acc, m);
                    lemma_merge_attrs_wf(name, attrs, k + 1, f + 1, next, diags + ds);
                },
            }
        } else {
            lemma_merge_attrs_wf(name, attrs, k + 1, f, acc, diags);
        }
    }
}

impl InterfaceMeta {
    /// Assembles the configuration from the attributes named `name`, in order,
    /// reporting every problem found; `doc` is the doc comment of the
    /// declaration. Places count fragments among the attributes named `name`.
    pub fn from_attrs(name: &str, attrs: &Vec<Attribute>, doc: Option<Spanned>) -> (r: Result<Self, Vec<Diagnostic>>)
        ensures
            match r {
                Ok(m) => from_attrs_of(name@, attrs@, opt_view(doc)) == Ok::<MetaView, Seq<Diagnostic>>(m@),
                Err(ds) => from_attrs_of(name@, attrs@, opt_view(doc)) == Err::<MetaView, Seq<Diagnostic>>(ds@),
            },
            r matches Ok(m) ==> m@.wf(),
    {
        proof {
            lemma_merge_attrs_wf(name@, attrs@, 0, 0, empty_meta(), Seq::empty());
        }
        let wanted = name.to_owned();
        let mut meta = InterfaceMeta::default();
        let mut diags: Vec<Diagnostic> = Vec::new();
        let n = attrs.len();
        let mut k: usize = 0;
        let mut f: usize = 0;
        while k < n
            invariant
                n == attrs@.len(),
                wanted@ == name@,
                0 <= f <= k <= n,
                merge_attrs_from(name@, attrs@, 0, 0, empty_meta(), Seq::empty()) == merge_attrs_from(
                    name@,
                    attrs@,
                    k as int,
                    f as nat,
                    meta@,
                    diags@,
                ),
                meta@.wf(),
                merge_attrs_from(name@, attrs@, 0, 0, empty_meta(), Seq::empty()).0.wf(),
            decreases n - k,
        {
            if attrs[k].path == wanted {
                match InterfaceMeta::parse(attrs[k].args.as_str(), f) {
                    Err(d) => diags.push(d),
                    Ok(frag) => {
                        let (merged, mut ds) = meta.merge_reporting(frag);
                        meta = merged;
                        diags.append(&mut ds);
                    },
                }
                f = f + 1;
            }
            k = k + 1;
        }
        if diags.len() > 0 {
            return Err(diags);
        }
        if meta.description.is_none() {
            meta.description = doc;
        }
        assert(meta@.implementers == spanned_views(meta.implementers@));
        Ok(meta)
    }
}

} // verus!
