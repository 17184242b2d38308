//! The grammar of one configuration fragment, such as
//! `name = "Character", ctx = Database, for(Human, Droid), internal`.

use vstd::prelude::*;
use crate::config::{
    distinct_spellings, lemma_add_implementer_wf, add_implementer, empty_meta, set_once, spanned_views, Diagnostic, InterfaceMeta, Key, Loc, MetaView,
    Spanned, SpannedView,
};

verus! {

/// Whether the text is, as a whole, the syntax of one Rust type.
pub uninterp spec fn is_type_syntax(text: Seq<char>) -> bool;

/// The value of a string literal, or nothing where the text is no string literal.
pub uninterp spec fn string_value(text: Seq<char>) -> Option<Seq<char>>;

/// Relies on `syn::parse_str::<syn::Type>` to tell whether the text parses
/// as one type; nothing of the parsed value is kept.
#[verifier::external_body]
fn parse_type(text: &str) -> (r: bool)
    ensures
        r == is_type_syntax(text@),
{
    syn::parse_str::<syn::Type>(text).is_ok()
}

/// Relies on `syn::parse_str::<syn::LitStr>` to parse the text as a string
/// literal, and on `syn::LitStr::value` for the string it denotes.
#[verifier::external_body]
fn parse_string(chars: &Vec<char>, from: usize, to: usize) -> (r: Option<String>)
    requires
        from <= to <= chars@.len(),
    ensures
        match r {
            Some(t) => string_value(chars@.subrange(from as int, to as int)) == Some(t@),
            None => string_value(chars@.subrange(from as int, to as int)).is_none(),
        },
{
    let text: String = chars[from..to].iter().collect();
    syn::parse_str::<syn::LitStr>(&text).ok().map(|l| l.value())
}

pub open spec fn is_space(c: char) -> bool {
    c == ' ' || c == '\t' || c == '\n' || c == '\r'
}

pub open spec fn is_ident_start(c: char) -> bool {
    ('a' <= c && c <= 'z') || ('A' <= c && c <= 'Z') || c == '_'
}

pub open spec fn is_ident_char(c: char) -> bool {
    is_ident_start(c) || ('0' <= c && c <= '9')
}

/// The first position at or after `i` that holds no white space.
pub open spec fn skip_space(s: Seq<char>, i: int) -> int
    decreases s.len() - i,
{
    if 0 <= i < s.len() && is_space(s[i]) {
        skip_space(s, i + 1)
    } else {
        i
    }
}

/// The end of the identifier that starts at `i`.
pub open spec fn ident_end(s: Seq<char>, i: int) -> int
    decreases s.len() - i,
{
    if 0 <= i < s.len() && is_ident_char(s[i]) {
        ident_end(s, i + 1)
    } else {
        i
    }
}

/// The closing quote of a string literal whose body starts at `j`, a
/// backslash escaping the character after it.
pub open spec fn string_close(s: Seq<char>, j: int) -> Option<int>
    decreases s.len() - j,
{
    if j < 0 || j >= s.len() {
        None
    } else if s[j] == '"' {
        Some(j)
    } else if s[j] == '\\' {
        if j + 1 < s.len() {
            string_close(s, j + 2)
        } else {
            None
        }
    } else {
        string_close(s, j + 1)
    }
}

/// The end of the run of `#` that starts at `j`.
pub open spec fn hashes_end(s: Seq<char>, j: int) -> int
    decreases s.len() - j,
{
    if 0 <= j < s.len() && s[j] == '#' {
        hashes_end(s, j + 1)
    } else {
        j
    }
}

/// A quote at `c` followed by `h` hashes: the close of a raw string with `h` hashes.
pub open spec fn closes_raw(s: Seq<char>, c: int, h: int) -> bool {
    0 <= c && c + 1 + h <= s.len() && s[c] == '"' && forall|m: int| c + 1 <= m < c + 1 + h ==> s[m] == '#'
}

/// The first close, at or after `j`, of a raw string with `h` hashes.
pub open spec fn raw_close(s: Seq<char>, j: int, h: int) -> Option<int>
    decreases s.len() - j,
{
    if j < 0 || j >= s.len() {
        None
    } else if closes_raw(s, j, h) {
        Some(j)
    } else {
        raw_close(s, j + 1, h)
    }
}

/// The end of the string literal that starts at `r`: a quoted string with
/// backslash escapes, or a raw string `r"..."`, `r#"..."#` and so on.
pub open spec fn literal_end(s: Seq<char>, r: int) -> Option<int> {
    if 0 <= r < s.len() && s[r] == '"' {
        match string_close(s, r + 1) {
            Some(c) => Some(c + 1),
            None => None,
        }
    } else if 0 <= r < s.len() && s[r] == 'r' {
        let q = hashes_end(s, r + 1);
        if q < s.len() && s[q] == '"' {
            match raw_close(s, q + 1, q - (r + 1)) {
                Some(c) => Some(c + 1 + (q - (r + 1))),
                None => None,
            }
        } else {
            None
        }
    } else {
        None
    }
}

/// The end of a type reference scanned from `j` at bracket depth `depth`: the
/// first comma or closing parenthesis outside all brackets and braces, or the
/// end of the text. The `>` of an arrow `->` closes nothing.
pub open spec fn type_end(s: Seq<char>, j: int, depth: nat) -> int {
    scan_type(s, j, depth, 0)
}

/// The scan of `type_end`, `braces` deep in braces: inside braces, which hold
/// an expression, only braces count.
pub open spec fn scan_type(s: Seq<char>, j: int, depth: nat, braces: nat) -> int
    decreases s.len() - j,
{
    if j < 0 || j >= s.len() {
        j
    } else if braces > 0 {
        if s[j] == '{' {
            scan_type(s, j + 1, depth, braces + 1)
        } else if s[j] == '}' {
            scan_type(s, j + 1, depth, (braces - 1) as nat)
        } else {
            scan_type(s, j + 1, depth, braces)
        }
    } else if depth == 0 && (s[j] == ',' || s[j] == ')') {
        j
    } else if s[j] == '{' {
        scan_type(s, j + 1, depth, 1)
    } else if s[j] == '(' || s[j] == '[' || s[j] == '<' {
        scan_type(s, j + 1, depth + 1, 0)
    } else if (s[j] == ')' || s[j] == ']' || (s[j] == '>' && !(j > 0 && s[j - 1] == '-'))) && depth > 0 {
        scan_type(s, j + 1, (depth - 1) as nat, 0)
    } else {
        scan_type(s, j + 1, depth, 0)
    }
}

/// The end of `s[k..t]` without its trailing white space.
pub open spec fn trim_end(s: Seq<char>, k: int, t: int) -> int
    decreases t - k,
{
    if t > k && is_space(s[t - 1]) {
        trim_end(s, k, t - 1)
    } else {
        t
    }
}

/// The type reference written in `s[k..t]`: its text without trailing white
/// space, where that text is the syntax of a type.
pub open spec fn type_text(s: Seq<char>, k: int, t: int) -> Option<Seq<char>> {
    let e = trim_end(s, k, t);
    if is_type_syntax(s.subrange(k, e)) {
        Some(s.subrange(k, e))
    } else {
        None
    }
}

/// The position after an item that ends at `j`, past an optional comma.
pub open spec fn after_item(s: Seq<char>, j: int) -> int {
    let k = skip_space(s, j);
    if 0 <= k < s.len() && s[k] == ',' {
        k + 1
    } else {
        k
    }
}

/// What a key word stands for.
#[derive(PartialEq, Eq, Structural, Clone, Copy, Debug)]
pub enum KeyWord {
    Name,
    Description,
    Context,
    Scalar,
    Implementers,
    Internal,
    Unknown,
}

pub open spec fn key_of(w: Seq<char>) -> KeyWord {
    if w == "name"@ {
        KeyWord::Name
    } else if w == "desc"@ || w == "description"@ {
        KeyWord::Description
    } else if w == "ctx"@ || w == "context"@ || w == "Context"@ {
        KeyWord::Context
    } else if w == "scalar"@ || w == "Scalar"@ || w == "ScalarValue"@ {
        KeyWord::Scalar
    } else if w == "for"@ || w == "implementers"@ {
        KeyWord::Implementers
    } else if w == "internal"@ {
        KeyWord::Internal
    } else {
        KeyWord::Unknown
    }
}

/// The value of a key that is set once.
pub open spec fn field_of(m: MetaView, key: Key) -> Option<SpannedView> {
    match key {
        Key::Name => m.name,
        Key::Description => m.description,
        Key::Context => m.context,
        _ => m.scalar,
    }
}

/// `m` with the key that is set once replaced by `v`.
pub open spec fn with_field(m: MetaView, key: Key, v: Option<SpannedView>) -> MetaView {
    MetaView {
        name: if key == Key::Name { v } else { m.name },
        description: if key == Key::Description { v } else { m.description },
        context: if key == Key::Context { v } else { m.context },
        scalar: if key == Key::Scalar { v } else { m.scalar },
        implementers: m.implementers,
        is_internal: m.is_internal,
    }
}

/// Sets a key once, with the value `v` found at `loc`.
pub open spec fn assign(m: MetaView, key: Key, v: Seq<char>, loc: Loc) -> Result<MetaView, Diagnostic> {
    match set_once(key, field_of(m, key), Some((v, loc))) {
        Ok(o) => Ok(with_field(m, key, o)),
        Err(d) => Err(d),
    }
}

pub open spec fn loc_at(f: usize, p: int) -> Loc {
    Loc { fragment: f, offset: p as usize }
}

/// After the key that ends at `e`: the `=` and the spaces after it, giving where the value starts.
pub open spec fn value_start(s: Seq<char>, f: usize, e: int) -> Result<int, Diagnostic> {
    let q = skip_space(s, e);
    if q < s.len() && s[q] == '=' {
        Ok(skip_space(s, q + 1))
    } else {
        Err(Diagnostic::Syntax { at: loc_at(f, q) })
    }
}

/// The implementer list from `j` up to its closing parenthesis: the
/// implementers added to `cur`, and the position after the parenthesis.
pub open spec fn parse_list(s: Seq<char>, f: usize, j: int, cur: Seq<SpannedView>) -> Result<(Seq<SpannedView>, int), Diagnostic>
    decreases s.len() - j,
    via parse_list_decreases
{
    let k = skip_space(s, j);
    if k < 0 || k >= s.len() {
        Err(Diagnostic::Syntax { at: loc_at(f, k) })
    } else if s[k] == ')' {
        Ok((cur, k + 1))
    } else {
        let t = type_end(s, k, 0);
        if t <= k {
            Err(Diagnostic::InvalidType { at: loc_at(f, k) })
        } else {
            match type_text(s, k, t) {
                None => Err(Diagnostic::InvalidType { at: loc_at(f, k) }),
                Some(v) => match add_implementer(cur, (v, loc_at(f, k))) {
                    Err(d) => Err(d),
                    Ok(next) => parse_list(s, f, after_item(s, t), next),
                },
            }
        }
    }
}

#[via_fn]
proof fn parse_list_decreases(s: Seq<char>, f: usize, j: int, cur: Seq<SpannedView>) {
    lemma_skip_space(s, j);
    let k = skip_space(s, j);
    if 0 <= k < s.len() && s[k] != ')' {
        let t = type_end(s, k, 0);
        lemma_type_end(s, k, 0);
        if t > k {
            lemma_after_item(s, t);
        }
    }
}

/// One item whose key starts at `p`: where the next item starts, and the configuration with it.
pub open spec fn item_step(s: Seq<char>, f: usize, p: int, m: MetaView) -> Result<(int, MetaView), Diagnostic> {
    let e = ident_end(s, p);
    let loc = loc_at(f, p);
    match key_of(s.subrange(p, e)) {
        KeyWord::Unknown => Err(Diagnostic::UnknownAttribute { at: loc }),
        KeyWord::Internal => Ok((after_item(s, e), MetaView { is_internal: true, ..m })),
        KeyWord::Implementers => {
            let q = skip_space(s, e);
            if q < s.len() && s[q] == '(' {
                match parse_list(s, f, q + 1, m.implementers) {
                    Err(d) => Err(d),
                    Ok((implementers, j)) => Ok((after_item(s, j), MetaView { implementers, ..m })),
                }
            } else {
                Err(Diagnostic::Syntax { at: loc_at(f, q) })
            }
        },
        KeyWord::Name | KeyWord::Description => {
            let key = if key_of(s.subrange(p, e)) == KeyWord::Name { Key::Name } else { Key::Description };
            match value_start(s, f, e) {
                Err(d) => Err(d),
                Ok(r) => match literal_end(s, r) {
                    None => Err(Diagnostic::Syntax { at: loc_at(f, r) }),
                    Some(c) => match string_value(s.subrange(r, c)) {
                        None => Err(Diagnostic::InvalidString { at: loc_at(f, r) }),
                        Some(v) => match assign(m, key, v, loc) {
                            Err(d) => Err(d),
                            Ok(m2) => Ok((after_item(s, c), m2)),
                        },
                    },
                },
            }
        },
        _ => {
            let key = if key_of(s.subrange(p, e)) == KeyWord::Context { Key::Context } else { Key::Scalar };
            match value_start(s, f, e) {
                Err(d) => Err(d),
                Ok(r) => {
                    let t = type_end(s, r, 0);
                    match type_text(s, r, t) {
                        None => Err(Diagnostic::InvalidType { at: loc_at(f, r) }),
                        Some(v) => match assign(m, key, v, loc) {
                            Err(d) => Err(d),
                            Ok(m2) => Ok((after_item(s, t), m2)),
                        },
                    }
                },
            }
        },
    }
}

/// The items from `i` on, added to `m`.
pub open spec fn parse_items(s: Seq<char>, f: usize, i: int, m: MetaView) -> Result<MetaView, Diagnostic>
    decreases s.len() - i,
    via parse_items_decreases
{
    let p = skip_space(s, i);
    if p < 0 || p >= s.len() {
        Ok(m)
    } else if !is_ident_start(s[p]) {
        Err(Diagnostic::Syntax { at: loc_at(f, p) })
    } else {
        match item_step(s, f, p, m) {
            Err(d) => Err(d),
            Ok((j, m2)) => parse_items(s, f, j, m2),
        }
    }
}

#[via_fn]
proof fn parse_items_decreases(s: Seq<char>, f: usize, i: int, m: MetaView) {
    lemma_skip_space(s, i);
    let p = skip_space(s, i);
    if 0 <= p < s.len() && is_ident_start(s[p]) {
        lemma_item_step(s, f, p, m);
    }
}

/// The configuration that one fragment of text states, `f` being its index among the fragments.
pub open spec fn parse_fragment(s: Seq<char>, f: usize) -> Result<MetaView, Diagnostic> {
    parse_items(s, f, 0, empty_meta())
}

proof fn lemma_parse_list_wf(s: Seq<char>, f: usize, j: int, cur: Seq<SpannedView>)
    requires
        distinct_spellings(cur),
    ensures
        parse_list(s, f, j, cur) matches Ok((next, _)) ==> distinct_spellings(next),
    decreases s.len() - j,
{
    lemma_skip_space(s, j);
    let k = skip_space(s, j);
    if 0 <= k < s.len() && s[k] != ')' {
        let t = type_end(s, k, 0);
        lemma_type_end(s, k, 0);
        if t > k {
            lemma_after_item(s, t);
            if let Some(v) = type_text(s, k, t) {
                lemma_add_implementer_wf(cur, (v, loc_at(f, k)));
                if let Ok(next) = add_implementer(cur, (v, loc_at(f, k))) {
                    lemma_parse_list_wf(s, f, after_item(s, t), next);
                }
            }
        }
    }
}

proof fn lemma_parse_items_wf(s: Seq<char>, f: usize, i: int, m: MetaView)
    requires
        m.wf(),
    ensures
        parse_items(s, f, i, m) matches Ok(r) ==> r.wf(),
    decreases s.len() - i,
{
    lemma_skip_space(s, i);
    let p = skip_space(s, i);
    if 0 <= p < s.len() && is_ident_start(s[p]) {
        lemma_item_step(s, f, p, m);
        let q = skip_space(s, ident_end(s, p));
        lemma_parse_list_wf(s, f, q + 1, m.implementers);
        if let Ok((j, m2)) = item_step(s, f, p, m) {
            assert(m2.wf());
            lemma_parse_items_wf(s, f, j, m2);
        }
    }
}

pub proof fn lemma_skip_space(s: Seq<char>, i: int)
    ensures
        skip_space(s, i) >= i,
        i <= s.len() ==> skip_space(s, i) <= s.len(),
    decreases s.len() - i,
{
    if 0 <= i < s.len() && is_space(s[i]) {
        lemma_skip_space(s, i + 1);
    }
}

pub proof fn lemma_ident_end(s: Seq<char>, i: int)
    ensures
        i <= ident_end(s, i),
        i <= s.len() ==> ident_end(s, i) <= s.len(),
    decreases s.len() - i,
{
    if 0 <= i < s.len() && is_ident_char(s[i]) {
        lemma_ident_end(s, i + 1);
    }
}

pub proof fn lemma_after_item(s: Seq<char>, j: int)
    ensures
        after_item(s, j) >= j,
        j <= s.len() ==> after_item(s, j) <= s.len(),
{
    lemma_skip_space(s, j);
}

pub proof fn lemma_type_end(s: Seq<char>, j: int, depth: nat)
    ensures
        type_end(s, j, depth) >= j,
        j <= s.len() ==> type_end(s, j, depth) <= s.len(),
{
    lemma_scan_type(s, j, depth, 0);
}

pub proof fn lemma_scan_type(s: Seq<char>, j: int, depth: nat, braces: nat)
    ensures
        scan_type(s, j, depth, braces) >= j,
        j <= s.len() ==> scan_type(s, j, depth, braces) <= s.len(),
    decreases s.len() - j,
{
    if 0 <= j < s.len() {
        if braces > 0 {
            if s[j] == '{' {
                lemma_scan_type(s, j + 1, depth, braces + 1);
            } else if s[j] == '}' {
                lemma_scan_type(s, j + 1, depth, (braces - 1) as nat);
            } else {
                lemma_scan_type(s, j + 1, depth, braces);
            }
        } else if depth == 0 && (s[j] == ',' || s[j] == ')') {
        } else if s[j] == '{' {
            lemma_scan_type(s, j + 1, depth, 1);
        } else if s[j] == '(' || s[j] == '[' || s[j] == '<' {
            lemma_scan_type(s, j + 1, depth + 1, 0);
        } else if (s[j] == ')' || s[j] == ']' || (s[j] == '>' && !(j > 0 && s[j - 1] == '-'))) && depth > 0 {
            lemma_scan_type(s, j + 1, (depth - 1) as nat, 0);
        } else {
            lemma_scan_type(s, j + 1, depth, 0);
        }
    }
}

proof fn lemma_hashes_end(s: Seq<char>, j: int)
    ensures
        hashes_end(s, j) >= j,
        j <= s.len() ==> hashes_end(s, j) <= s.len(),
    decreases s.len() - j,
{
    if 0 <= j < s.len() && s[j] == '#' {
        lemma_hashes_end(s, j + 1);
    }
}

proof fn lemma_raw_close(s: Seq<char>, j: int, h: int)
    ensures
        raw_close(s, j, h) matches Some(c) ==> j <= c && c + 1 + h <= s.len(),
    decreases s.len() - j,
{
    if 0 <= j < s.len() && !closes_raw(s, j, h) {
        lemma_raw_close(s, j + 1, h);
    }
}

proof fn lemma_literal_end(s: Seq<char>, r: int)
    ensures
        literal_end(s, r) matches Some(c) ==> r < c <= s.len(),
{
    lemma_string_close(s, r + 1);
    lemma_hashes_end(s, r + 1);
    let q = hashes_end(s, r + 1);
    lemma_raw_close(s, q + 1, q - (r + 1));
}

pub proof fn lemma_string_close(s: Seq<char>, j: int)
    ensures
        string_close(s, j) matches Some(c) ==> j <= c < s.len(),
    decreases s.len() - j,
{
    if 0 <= j < s.len() && s[j] != '"' {
        if s[j] == '\\' && j + 1 < s.len() {
            lemma_string_close(s, j + 2);
        } else {
            lemma_string_close(s, j + 1);
        }
    }
}

pub proof fn lemma_parse_list(s: Seq<char>, f: usize, j: int, cur: Seq<SpannedView>)
    ensures
        parse_list(s, f, j, cur) matches Ok((_, e)) ==> j < e <= s.len(),
    decreases s.len() - j,
{
    lemma_skip_space(s, j);
    let k = skip_space(s, j);
    if 0 <= k < s.len() && s[k] != ')' {
        let t = type_end(s, k, 0);
        lemma_type_end(s, k, 0);
        if t > k {
            lemma_after_item(s, t);
            if let Some(v) = type_text(s, k, t) {
                if let Ok(next) = add_implementer(cur, (v, loc_at(f, k))) {
                    lemma_parse_list(s, f, after_item(s, t), next);
                }
            }
        }
    }
}

pub proof fn lemma_item_step(s: Seq<char>, f: usize, p: int, m: MetaView)
    requires
        0 <= p < s.len(),
        is_ident_start(s[p]),
    ensures
        item_step(s, f, p, m) matches Ok((j, _)) ==> p < j <= s.len(),
{
    let e = ident_end(s, p);
    assert(e == ident_end(s, p + 1));
    lemma_ident_end(s, p + 1);
    lemma_after_item(s, e);
    let q = skip_space(s, e);
    lemma_skip_space(s, e);
    lemma_skip_space(s, q + 1);
    lemma_parse_list(s, f, q + 1, m.implementers);
    if let Ok(j) = parse_list(s, f, q + 1, m.implementers) {
        lemma_after_item(s, j.1);
    }
    let r = skip_space(s, q + 1);
    lemma_literal_end(s, r);
    if let Some(c) = literal_end(s, r) {
        lemma_after_item(s, c);
    }
    lemma_type_end(s, r, 0);
    lemma_after_item(s, type_end(s, r, 0));
}

fn chars_of(text: &str) -> (r: Vec<char>)
    ensures
        r@ == text@,
{
    let n = text.unicode_len();
    let mut r: Vec<char> = Vec::new();
    let mut i: usize = 0;
    while i < n
        invariant
            n == text@.len(),
            0 <= i <= n,
            r@ == text@.subrange(0, i as int),
        decreases n - i,
    {
        r.push(text.get_char(i));
        i = i + 1;
        assert(r@ =~= text@.subrange(0, i as int));
    }
    assert(r@ =~= text@);
    r
}

fn skip_space_at(s: &Vec<char>, i: usize) -> (r: usize)
    requires
        i <= s@.len(),
    ensures
        r == skip_space(s@, i as int),
        i <= r <= s@.len(),
{
    proof {
        lemma_skip_space(s@, i as int);
    }
    let mut j = i;
    while j < s.len() && (s[j] == ' ' || s[j] == '\t' || s[j] == '\n' || s[j] == '\r')
        invariant
            i <= j <= s@.len(),
            skip_space(s@, i as int) == skip_space(s@, j as int),
        decreases s@.len() - j,
    {
        j = j + 1;
    }
    j
}

fn ident_end_at(s: &Vec<char>, i: usize) -> (r: usize)
    requires
        i <= s@.len(),
    ensures
        r == ident_end(s@, i as int),
        i <= r <= s@.len(),
{
    let mut j = i;
    while j < s.len() && ((s[j] >= 'a' && s[j] <= 'z') || (s[j] >= 'A' && s[j] <= 'Z') || s[j] == '_' || (s[j] >= '0'
        && s[j] <= '9'))
        invariant
            i <= j <= s@.len(),
            ident_end(s@, i as int) == ident_end(s@, j as int),
        decreases s@.len() - j,
    {
        j = j + 1;
    }
    j
}

fn string_close_at(s: &Vec<char>, i: usize) -> (r: Option<usize>)
    requires
        i <= s@.len(),
    ensures
        match string_close(s@, i as int) {
            Some(c) => r == Some(c as usize) && i <= c < s@.len(),
            None => r.is_none(),
        },
{
    proof {
        lemma_string_close(s@, i as int);
    }
    let n = s.len();
    let mut j = i;
    while j < n
        invariant
            n == s@.len(),
            i <= j <= n + 1,
            string_close(s@, i as int) == string_close(s@, j as int),
        decreases n + 1 - j,
    {
        if s[j] == '"' {
            return Some(j);
        } else if s[j] == '\\' {
            if j + 1 < n {
                j = j + 2;
            } else {
                return None;
            }
        } else {
            j = j + 1;
        }
    }
    None
}

fn hashes_end_at(s: &Vec<char>, i: usize) -> (r: usize)
    requires
        i <= s@.len(),
    ensures
        r == hashes_end(s@, i as int),
        i <= r <= s@.len(),
{
    let mut j = i;
    while j < s.len() && s[j] == '#'
        invariant
            i <= j <= s@.len(),
            hashes_end(s@, i as int) == hashes_end(s@, j as int),
        decreases s@.len() - j,
    {
        j = j + 1;
    }
    j
}

fn closes_raw_at(s: &Vec<char>, c: usize, h: usize) -> (r: bool)
    requires
        c < s@.len(),
    ensures
        r == closes_raw(s@, c as int, h as int),
{
    if s[c] != '"' || h > s.len() - c - 1 {
        return false;
    }
    let n = s.len();
    let mut m: usize = 0;
    while m < h
        invariant
            n == s@.len(),
            c < s@.len(),
            c + 1 + h <= s@.len(),
            s@[c as int] == '"',
            0 <= m <= h,
            forall|x: int| c + 1 <= x < c + 1 + m ==> s@[x] == '#',
        decreases h - m,
    {
        if s[c + 1 + m] != '#' {
            return false;
        }
        m = m + 1;
    }
    true
}

fn literal_end_at(s: &Vec<char>, r: usize) -> (res: Option<usize>)
    requires
        r <= s@.len(),
    ensures
        match literal_end(s@, r as int) {
            Some(c) => res == Some(c as usize) && r < c <= s@.len(),
            None => res.is_none(),
        },
{
    proof {
        lemma_literal_end(s@, r as int);
    }
    let n = s.len();
    if r < n && s[r] == '"' {
        match string_close_at(s, r + 1) {
            Some(c) => Some(c + 1),
            None => None,
        }
    } else if r < n && s[r] == 'r' {
        let q = hashes_end_at(s, r + 1);
        if q < n && s[q] == '"' {
            let h = q - (r + 1);
            let mut j = q + 1;
            while j < n
                invariant
                    n == s@.len(),
                    r < n,
                    s@[r as int] == 'r',
                    q == hashes_end(s@, r + 1),
                    q < n,
                    s@[q as int] == '"',
                    q < j <= n,
                    h == q - (r + 1),
                    raw_close(s@, q + 1, h as int) == raw_close(s@, j as int, h as int),
                decreases n - j,
            {
                if closes_raw_at(s, j, h) {
                    return Some(j + 1 + h);
                }
                j = j + 1;
            }
            None
        } else {
            None
        }
    } else {
        None
    }
}

fn type_end_at(s: &Vec<char>, i: usize) -> (r: usize)
    requires
        i <= s@.len(),
    ensures
        r == type_end(s@, i as int, 0),
        i <= r <= s@.len(),
{
    proof {
        lemma_type_end(s@, i as int, 0);
    }
    let n = s.len();
    let mut j = i;
    let mut depth: usize = 0;
    let mut braces: usize = 0;
    while j < n
        invariant
            n == s@.len(),
            i <= j <= n,
            depth + braces <= j,
            type_end(s@, i as int, 0) == scan_type(s@, j as int, depth as nat, braces as nat),
        decreases n - j,
    {
        let c = s[j];
        if braces > 0 {
            if c == '{' {
                braces = braces + 1;
            } else if c == '}' {
                braces = braces - 1;
            }
        } else if depth == 0 && (c == ',' || c == ')') {
            return j;
        } else if c == '{' {
            braces = 1;
        } else if c == '(' || c == '[' || c == '<' {
            depth = depth + 1;
        } else if (c == ')' || c == ']' || (c == '>' && !(j > 0 && s[j - 1] == '-'))) && depth > 0 {
            depth = depth - 1;
        }
        j = j + 1;
    }
    j
}

fn type_text_at(src: &str, s: &Vec<char>, k: usize, t: usize) -> (r: Option<String>)
    requires
        s@ == src@,
        k <= t <= s@.len(),
    ensures
        match type_text(s@, k as int, t as int) {
            Some(v) => r matches Some(x) && x@ == v,
            None => r.is_none(),
        },
{
    let mut e = t;
    while e > k && (s[e - 1] == ' ' || s[e - 1] == '\t' || s[e - 1] == '\n' || s[e - 1] == '\r')
        invariant
            k <= e <= t,
            t <= s@.len(),
            trim_end(s@, k as int, t as int) == trim_end(s@, k as int, e as int),
        decreases e - k,
    {
        e = e - 1;
    }
    let text = src.substring_char(k, e);
    if parse_type(text) {
        Some(text.to_owned())
    } else {
        None
    }
}

fn after_item_at(s: &Vec<char>, j: usize) -> (r: usize)
    requires
        j <= s@.len(),
    ensures
        r == after_item(s@, j as int),
        j <= r <= s@.len(),
{
    let k = skip_space_at(s, j);
    if k < s.len() && s[k] == ',' {
        k + 1
    } else {
        k
    }
}

fn word_is(s: &Vec<char>, from: usize, to: usize, w: &str) -> (r: bool)
    requires
        from <= to <= s@.len(),
    ensures
        r == (s@.subrange(from as int, to as int) == w@),
{
    let n = w.unicode_len();
    if to - from != n {
        proof {
            if s@.subrange(from as int, to as int) == w@ {
                assert(s@.subrange(from as int, to as int).len() == w@.len());
            }
        }
        return false;
    }
    let mut k: usize = 0;
    while k < n
        invariant
            n == w@.len(),
            to - from == n,
            from <= to <= s@.len(),
            0 <= k <= n,
            forall|m: int| 0 <= m < k ==> s@[from + m] == w@[m],
        decreases n - k,
    {
        if s[from + k] != w.get_char(k) {
            assert(s@.subrange(from as int, to as int)[k as int] != w@[k as int]);
            return false;
        }
        k = k + 1;
    }
    assert(s@.subrange(from as int, to as int) =~= w@);
    true
}

fn key_at(s: &Vec<char>, p: usize, e: usize) -> (r: KeyWord)
    requires
        p <= e <= s@.len(),
    ensures
        r == key_of(s@.subrange(p as int, e as int)),
{
    if word_is(s, p, e, "name") {
        KeyWord::Name
    } else if word_is(s, p, e, "desc") || word_is(s, p, e, "description") {
        KeyWord::Description
    } else if word_is(s, p, e, "ctx") || word_is(s, p, e, "context") || word_is(s, p, e, "Context") {
        KeyWord::Context
    } else if word_is(s, p, e, "scalar") || word_is(s, p, e, "Scalar") || word_is(s, p, e, "ScalarValue") {
        KeyWord::Scalar
    } else if word_is(s, p, e, "for") || word_is(s, p, e, "implementers") {
        KeyWord::Implementers
    } else if word_is(s, p, e, "internal") {
        KeyWord::Internal
    } else {
        KeyWord::Unknown
    }
}

fn assign_key(meta: &mut InterfaceMeta, key: Key, v: Spanned) -> (r: Result<(), Diagnostic>)
    requires
        key != Key::Implementer,
    ensures
        match r {
            Ok(()) => assign(old(meta)@, key, v.value@, v.loc) == Ok::<MetaView, Diagnostic>(final(meta)@),
            Err(d) => assign(old(meta)@, key, v.value@, v.loc) == Err::<MetaView, Diagnostic>(d),
        },
{
    let ghost m = meta@;
    let ghost vv = v@;
    let slot = match key {
        Key::Name => &mut meta.name,
        Key::Description => &mut meta.description,
        Key::Context => &mut meta.context,
        _ => &mut meta.scalar,
    };
    match slot {
        Some(a) => Err(Diagnostic::Duplicate { key, first: a.loc, second: v.loc }),
        None => {
            *slot = Some(v);
            assert(meta@ == with_field(m, key, Some(vv)));
            Ok(())
        },
    }
}

fn parse_list_at(src: &str, s: &Vec<char>, f: usize, j: usize, cur: &mut Vec<Spanned>) -> (r: Result<usize, Diagnostic>)
    requires
        s@ == src@,
        j <= s@.len(),
    ensures
        match r {
            Ok(e) => parse_list(s@, f, j as int, spanned_views(old(cur)@)) == Ok::<(Seq<SpannedView>, int), Diagnostic>(
                (spanned_views(final(cur)@), e as int),
            ),
            Err(d) => parse_list(s@, f, j as int, spanned_views(old(cur)@)) == Err::<(Seq<SpannedView>, int), Diagnostic>(d),
        },
{
    let ghost goal = parse_list(s@, f, j as int, spanned_views(cur@));
    let mut i = j;
    loop
        invariant
            i <= s@.len(),
            s@ == src@,
            goal == parse_list(s@, f, j as int, spanned_views(old(cur)@)),
            goal == parse_list(s@, f, i as int, spanned_views(cur@)),
        decreases s@.len() - i,
    {
        let k = skip_space_at(s, i);
        if k >= s.len() {
            return Err(Diagnostic::Syntax { at: Loc { fragment: f, offset: k } });
        }
        if s[k] == ')' {
            return Ok(k + 1);
        }
        let t = type_end_at(s, k);
        if t <= k {
            return Err(Diagnostic::InvalidType { at: Loc { fragment: f, offset: k } });
        }
        let ty = match type_text_at(src, s, k, t) {
            Some(ty) => ty,
            None => return Err(Diagnostic::InvalidType { at: Loc { fragment: f, offset: k } }),
        };
        match crate::config::push_implementer(cur, Spanned { value: ty, loc: Loc { fragment: f, offset: k } }) {
            Ok(()) => {},
            Err(d) => return Err(d),
        }
        i = after_item_at(s, t);
    }
}

fn item_at(src: &str, s: &Vec<char>, f: usize, p: usize, meta: &mut InterfaceMeta) -> (r: Result<usize, Diagnostic>)
    requires
        s@ == src@,
        p < s@.len(),
        is_ident_start(s@[p as int]),
    ensures
        match r {
            Ok(j) => item_step(s@, f, p as int, old(meta)@) == Ok::<(int, MetaView), Diagnostic>((j as int, final(meta)@)),
            Err(d) => item_step(s@, f, p as int, old(meta)@) == Err::<(int, MetaView), Diagnostic>(d),
        },
{
    let ghost m = meta@;
    let e = ident_end_at(s, p);
    let loc = Loc { fragment: f, offset: p };
    let word = key_at(s, p, e);
    match word {
        KeyWord::Unknown => Err(Diagnostic::UnknownAttribute { at: loc }),
        KeyWord::Internal => {
            meta.is_internal = true;
            Ok(after_item_at(s, e))
        },
        KeyWord::Implementers => {
            let q = skip_space_at(s, e);
            if q < s.len() && s[q] == '(' {
                match parse_list_at(src, s, f, q + 1, &mut meta.implementers) {
                    Err(d) => Err(d),
                    Ok(j) => {
                        proof {
                            lemma_parse_list(s@, f, q + 1, m.implementers);
                        }
                        Ok(after_item_at(s, j))
                    },
                }
            } else {
                Err(Diagnostic::Syntax { at: Loc { fragment: f, offset: q } })
            }
        },
        KeyWord::Name | KeyWord::Description => {
            let key = if word == KeyWord::Name { Key::Name } else { Key::Description };
            let q = skip_space_at(s, e);
            if !(q < s.len() && s[q] == '=') {
                return Err(Diagnostic::Syntax { at: Loc { fragment: f, offset: q } });
            }
            let r = skip_space_at(s, q + 1);
            let c = match literal_end_at(s, r) {
                Some(c) => c,
                None => return Err(Diagnostic::Syntax { at: Loc { fragment: f, offset: r } }),
            };
            let v = match parse_string(s, r, c) {
                Some(v) => v,
                None => return Err(Diagnostic::InvalidString { at: Loc { fragment: f, offset: r } }),
            };
            match assign_key(meta, key, Spanned { value: v, loc }) {
                Err(d) => Err(d),
                Ok(()) => Ok(after_item_at(s, c)),
            }
        },
        _ => {
            let key = if word == KeyWord::Context { Key::Context } else { Key::Scalar };
            let q = skip_space_at(s, e);
            if !(q < s.len() && s[q] == '=') {
                return Err(Diagnostic::Syntax { at: Loc { fragment: f, offset: q } });
            }
            let r = skip_space_at(s, q + 1);
            let t = type_end_at(s, r);
            let v = match type_text_at(src, s, r, t) {
                Some(v) => v,
                None => return Err(Diagnostic::InvalidType { at: Loc { fragment: f, offset: r } }),
            };
            match assign_key(meta, key, Spanned { value: v, loc }) {
                Err(d) => Err(d),
                Ok(()) => Ok(after_item_at(s, t)),
            }
        },
    }
}

impl InterfaceMeta {
    /// Parses one configuration fragment; `fragment` is its index among the
    /// fragments, which the places in diagnostics carry.
    pub fn parse(src: &str, fragment: usize) -> (r: Result<InterfaceMeta, Diagnostic>)
        ensures
            match r {
                Ok(m) => parse_fragment(src@, fragment) == Ok::<MetaView, Diagnostic>(m@),
                Err(d) => parse_fragment(src@, fragment) == Err::<MetaView, Diagnostic>(d),
            },
            r matches Ok(m) ==> m@.wf(),
    {
        proof {
            lemma_parse_items_wf(src@, fragment, 0, empty_meta());
        }
        let s = chars_of(src);
        let mut meta = InterfaceMeta::default();
        let mut i: usize = 0;
        loop
            invariant
                s@ == src@,
                i <= s@.len(),
                parse_fragment(src@, fragment) == parse_items(s@, fragment, i as int, meta@),
                parse_fragment(src@, fragment) matches Ok(m) ==> m.wf(),
            decreases s@.len() - i,
        {
            let p = skip_space_at(&s, i);
            if p >= s.len() {
                return Ok(meta);
            }
            let c = s[p];
            if !((c >= 'a' && c <= 'z') || (c >= 'A' && c <= 'Z') || c == '_') {
                return Err(Diagnostic::Syntax { at: Loc { fragment, offset: p } });
            }
            proof {
                lemma_item_step(s@, fragment, p as int, meta@);
            }
            match item_at(src, &s, fragment, p, &mut meta) {
                Err(d) => return Err(d),
                Ok(j) => {
                    i = j;
                },
            }
        }
    }
}

} // verus!
