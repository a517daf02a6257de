//! What the build tool gathers from the renderer's declarations: converted
//! type definitions keyed by name, components, exported functions, and the
//! errors found on the way.

use vstd::prelude::*;
use vstd::string::{StrSliceExecFns, StringExecFns};
use crate::path::{borrow_scope, contains_segment, lemma_push_contains, path_view};
use crate::table::{contains_key, distinct_keys, index_of, insert, keys_of, remove};

verus! {

/// A problem found in the renderer's declarations.
pub enum CollectionError {
    /// A declaration could not be converted.
    Conversion { message: String },
    /// A type is referenced but never declared.
    MissingType { name: String, dependents: Vec<String> },
    /// A function that must be exported is not; `component` names the
    /// component that asked for it, if any.
    MissingFunction { name: String, component: Option<String> },
}

/// A converted type definition: its documentation, the converted form, and
/// the names of the types it refers to.
pub struct KindDefinition<K> {
    pub comment: Option<String>,
    pub kind: K,
    pub dependencies: Vec<String>,
}

/// A component: the function that renders it, and the types of its action
/// and event payloads by name.
pub struct ComponentInfo {
    pub render_name: String,
    pub actions: Vec<(String, String)>,
    pub events: Vec<(String, String)>,
}

/// Everything gathered from the renderer's declarations.
pub struct Collection<K> {
    action_key_type_name: Option<String>,
    event_key_type_name: Option<String>,
    kinds: Vec<(String, KindDefinition<K>)>,
    erroring_kinds: Vec<(String, CollectionError)>,
    components: Vec<(String, ComponentInfo)>,
    functions: Vec<(String, ())>,
    erroring_functions: Vec<(String, CollectionError)>,
}

/// The values of a table, in order.
pub open spec fn values_of<V>(entries: Seq<(String, V)>) -> Seq<V> {
    entries.map_values(|e: (String, V)| e.1)
}

/// Each reference from a definition to a type, as (referring name,
/// referenced name), in the order of the definitions and of their lists.
pub open spec fn dependency_pairs<K>(kinds: Seq<(String, KindDefinition<K>)>) -> Seq<
    (Seq<char>, Seq<char>),
>
    decreases kinds.len(),
{
    if kinds.len() == 0 {
        Seq::empty()
    } else {
        dependency_pairs(kinds.drop_last()) + pairs_of(kinds.last())
    }
}

/// The references made by one definition.
pub open spec fn pairs_of<K>(entry: (String, KindDefinition<K>)) -> Seq<(Seq<char>, Seq<char>)> {
    entry.1.dependencies@.map_values(|d: String| (entry.0@, d@))
}

/// The names that refer to `name`, once per reference, in order.
pub open spec fn dependents_of(pairs: Seq<(Seq<char>, Seq<char>)>, name: Seq<char>) -> Seq<
    Seq<char>,
>
    decreases pairs.len(),
{
    if pairs.len() == 0 {
        Seq::empty()
    } else {
        dependents_of(pairs.drop_last(), name) + if pairs.last().1 == name {
            seq![pairs.last().0]
        } else {
            Seq::empty()
        }
    }
}

/// Whether `name` is neither converted nor in error.
pub open spec fn is_undeclared<K>(
    kinds: Seq<(String, KindDefinition<K>)>,
    erroring: Seq<(String, CollectionError)>,
    name: Seq<char>,
) -> bool {
    !keys_of(kinds).contains(name) && !keys_of(erroring).contains(name)
}

/// The missing types found so far, each with the names that refer to it.
spec fn missing_ok<K>(
    missing: Seq<(String, Vec<String>)>,
    kinds: Seq<(String, KindDefinition<K>)>,
    erroring: Seq<(String, CollectionError)>,
    pairs: Seq<(Seq<char>, Seq<char>)>,
) -> bool {
    &&& distinct_keys(missing)
    &&& forall|m: int|
        0 <= m < missing.len() ==> is_undeclared(kinds, erroring, #[trigger] missing[m].0@)
            && path_view(missing[m].1@) == dependents_of(pairs, missing[m].0@)
            && missing[m].1@.len() > 0
    &&& forall|q: int|
        0 <= q < pairs.len() && is_undeclared(kinds, erroring, #[trigger] pairs[q].1) ==> keys_of(
            missing,
        ).contains(pairs[q].1)
    &&& forall|d: Seq<char>|
        is_undeclared(kinds, erroring, d) && !#[trigger] keys_of(missing).contains(d)
            ==> dependents_of(pairs, d) == Seq::<Seq<char>>::empty()
}

proof fn lemma_missing_step<K>(
    missing: Seq<(String, Vec<String>)>,
    next: Seq<(String, Vec<String>)>,
    kinds: Seq<(String, KindDefinition<K>)>,
    erroring: Seq<(String, CollectionError)>,
    pairs: Seq<(Seq<char>, Seq<char>)>,
    pair: (Seq<char>, Seq<char>),
)
    requires
        missing_ok(missing, kinds, erroring, pairs),
        !is_undeclared(kinds, erroring, pair.1) ==> next == missing,
        is_undeclared(kinds, erroring, pair.1) && keys_of(missing).contains(pair.1) ==> exists|
            m: int,
        |
            0 <= m < missing.len() && missing[m].0@ == pair.1 && next.len() == missing.len()
                && next[m].0@ == pair.1 && path_view(next[m].1@) == path_view(missing[m].1@).push(
                pair.0,
            ) && forall|o: int| 0 <= o < missing.len() && o != m ==> next[o] == missing[o],
        is_undeclared(kinds, erroring, pair.1) && !keys_of(missing).contains(pair.1) ==> next.len()
            == missing.len() + 1 && next.drop_last() == missing && next.last().0@ == pair.1
            && path_view(next.last().1@) == seq![pair.0],
    ensures
        missing_ok(next, kinds, erroring, pairs.push(pair)),
{
    assert forall|m: int| 0 <= m < next.len() implies (#[trigger] next[m]).1@.len() > 0 by {
        if m < missing.len() {
            assert(is_undeclared(kinds, erroring, missing[m].0@));
        }
        if is_undeclared(kinds, erroring, pair.1) && keys_of(missing).contains(pair.1) {
            let m0 = choose|m0: int|
                0 <= m0 < missing.len() && missing[m0].0@ == pair.1 && next.len() == missing.len()
                    && next[m0].0@ == pair.1 && path_view(next[m0].1@) == path_view(
                    missing[m0].1@,
                ).push(pair.0) && forall|o: int|
                    0 <= o < missing.len() && o != m0 ==> next[o] == missing[o];
            if m == m0 {
                assert(path_view(next[m].1@).len() == next[m].1@.len());
            } else {
                assert(next[m] == missing[m]);
            }
        } else if is_undeclared(kinds, erroring, pair.1) {
            if m < missing.len() {
                assert(next[m] == next.drop_last()[m]);
            } else {
                assert(path_view(next.last().1@).len() == next.last().1@.len());
            }
        }
    }
    let np = pairs.push(pair);
    assert(np.drop_last() =~= pairs);
    assert forall|d: Seq<char>| #[trigger] dependents_of(np, d) == dependents_of(pairs, d) + if pair.1
        == d {
        seq![pair.0]
    } else {
        Seq::empty()
    } by {}
    if !is_undeclared(kinds, erroring, pair.1) {
        assert forall|m: int| 0 <= m < next.len() implies is_undeclared(kinds, erroring, #[trigger] next[m].0@)
            && path_view(next[m].1@) == dependents_of(np, next[m].0@) by {
            assert(dependents_of(np, next[m].0@) =~= dependents_of(pairs, next[m].0@));
        }
        assert forall|d: Seq<char>|
            is_undeclared(kinds, erroring, d) && !#[trigger] keys_of(next).contains(d) implies dependents_of(np, d)
                == Seq::<Seq<char>>::empty() by {
            assert(dependents_of(np, d) =~= dependents_of(pairs, d));
        }
        assert forall|q: int|
            0 <= q < np.len() && is_undeclared(kinds, erroring, #[trigger] np[q].1) implies keys_of(
                next,
            ).contains(np[q].1) by {
            assert(np[q] == pairs[q]);
        }
    } else if keys_of(missing).contains(pair.1) {
        let m = choose|m: int|
            0 <= m < missing.len() && missing[m].0@ == pair.1 && next.len() == missing.len()
                && next[m].0@ == pair.1 && path_view(next[m].1@) == path_view(missing[m].1@).push(
                pair.0,
            ) && forall|o: int| 0 <= o < missing.len() && o != m ==> next[o] == missing[o];
        assert(keys_of(next) =~= keys_of(missing));
        assert forall|o: int| 0 <= o < next.len() implies is_undeclared(kinds, erroring, #[trigger] next[o].0@)
            && path_view(next[o].1@) == dependents_of(np, next[o].0@) by {
            if o != m {
                assert(next[o] == missing[o]);
                assert(keys_of(missing)[o] != keys_of(missing)[m]);
                assert(dependents_of(np, next[o].0@) =~= dependents_of(pairs, next[o].0@));
            }
        }
        assert forall|d: Seq<char>|
            is_undeclared(kinds, erroring, d) && !#[trigger] keys_of(next).contains(d) implies dependents_of(np, d)
                == Seq::<Seq<char>>::empty() by {
            assert(keys_of(missing)[m] == pair.1);
            assert(dependents_of(np, d) =~= dependents_of(pairs, d));
        }
        assert forall|q: int|
            0 <= q < np.len() && is_undeclared(kinds, erroring, #[trigger] np[q].1) implies keys_of(
                next,
            ).contains(np[q].1) by {
            if q < pairs.len() {
                assert(np[q] == pairs[q]);
            } else {
                assert(keys_of(next)[m] == pair.1);
            }
        }
    } else {
        assert(keys_of(next) =~= keys_of(missing).push(pair.1));
        assert forall|o: int| 0 <= o < next.len() implies is_undeclared(kinds, erroring, #[trigger] next[o].0@)
            && path_view(next[o].1@) == dependents_of(np, next[o].0@) by {
            if o < missing.len() {
                assert(next[o] == missing[o]);
                assert(keys_of(missing).contains(missing[o].0@)) by {
                    assert(keys_of(missing)[o] == missing[o].0@);
                }
                assert(dependents_of(np, next[o].0@) =~= dependents_of(pairs, next[o].0@));
            } else {
                assert(dependents_of(np, pair.1) =~= seq![pair.0]);
            }
        }
        assert forall|d: Seq<char>|
            is_undeclared(kinds, erroring, d) && !#[trigger] keys_of(next).contains(d) implies dependents_of(np, d)
                == Seq::<Seq<char>>::empty() by {
            assert(keys_of(next)[missing.len() as int] == pair.1);
            if keys_of(missing).contains(d) {
                let j = choose|j: int| 0 <= j < keys_of(missing).len() && keys_of(missing)[j] == d;
                assert(keys_of(next)[j] == d);
            }
            assert(dependents_of(np, d) =~= dependents_of(pairs, d));
        }
        assert forall|q: int|
            0 <= q < np.len() && is_undeclared(kinds, erroring, #[trigger] np[q].1) implies keys_of(
                next,
            ).contains(np[q].1) by {
            if q < pairs.len() {
                assert(np[q] == pairs[q]);
                let j = choose|j: int| 0 <= j < keys_of(missing).len() && keys_of(missing)[j] == pairs[q].1;
                assert(keys_of(next)[j] == pairs[q].1);
            } else {
                assert(keys_of(next)[missing.len() as int] == pair.1);
            }
        }
        assert(keys_of(next).no_duplicates());
    }
}

/// Whether `c` has Unicode's White_Space property: tab to carriage return,
/// space, next line, no-break space, ogham space mark, the spaces from en
/// quad to hair space, line and paragraph separators, narrow no-break
/// space, medium mathematical space and ideographic space.
pub open spec fn is_space(c: char) -> bool {
    let n = c as u32;
    (0x9 <= n && n <= 0xD) || n == 0x20 || n == 0x85 || n == 0xA0 || n == 0x1680 || (0x2000 <= n
        && n <= 0x200A) || n == 0x2028 || n == 0x2029 || n == 0x202F || n == 0x205F || n == 0x3000
}

/// Relies on char::is_whitespace: true exactly for the characters with
/// Unicode's White_Space property.
#[verifier::external_body]
fn whitespace(c: char) -> (r: bool)
    ensures
        r == is_space(c),
{
    c.is_whitespace()
}

/// The first index from `i` on that is not white space, or the length.
pub open spec fn skip_space(s: Seq<char>, i: int) -> int
    decreases s.len() - i,
{
    if i < 0 || i >= s.len() {
        s.len() as int
    } else if is_space(s[i]) {
        skip_space(s, i + 1)
    } else {
        i
    }
}

/// The first index from `i` on that is white space, or the length.
pub open spec fn word_end(s: Seq<char>, i: int) -> int
    decreases s.len() - i,
{
    if i < 0 || i >= s.len() {
        s.len() as int
    } else if is_space(s[i]) {
        i
    } else {
        word_end(s, i + 1)
    }
}

/// The word that starts at or after `i`, and where it ends.
pub open spec fn word_from(s: Seq<char>, i: int) -> (Option<Seq<char>>, int) {
    let a = skip_space(s, i);
    if a < s.len() {
        (Some(s.subrange(a, word_end(s, a))), word_end(s, a))
    } else {
        (None, s.len() as int)
    }
}

/// The first word of a tag.
pub open spec fn tag_label(tag: Seq<char>) -> Option<Seq<char>> {
    word_from(tag, 0).0
}

/// The second word of a tag.
pub open spec fn tag_context(tag: Seq<char>) -> Option<Seq<char>> {
    word_from(tag, word_from(tag, 0).1).0
}

/// The tag that marks a component.
pub open spec fn component_tag() -> Seq<char> {
    "@component"@
}

/// The tag that marks the type of event keys.
pub open spec fn event_key_tag() -> Seq<char> {
    "@feature_event_key"@
}

/// The tag that marks the type of action keys.
pub open spec fn action_key_tag() -> Seq<char> {
    "@feature_action_key"@
}

/// The render function of a component whose tag names none.
pub open spec fn default_render_name(node: Seq<char>) -> Seq<char> {
    node + "Render"@
}

fn skip_space_from(s: &str, i: usize) -> (r: usize)
    requires
        i <= s@.len(),
    ensures
        r as int == skip_space(s@, i as int),
        i <= r <= s@.len(),
{
    let n = s.unicode_len();
    let mut j = i;
    while j < n && whitespace(s.get_char(j))
        invariant
            n == s@.len(),
            i <= j <= n,
            skip_space(s@, i as int) == skip_space(s@, j as int),
        decreases n - j,
    {
        j = j + 1;
    }
    j
}

fn word_end_from(s: &str, i: usize) -> (r: usize)
    requires
        i <= s@.len(),
    ensures
        r as int == word_end(s@, i as int),
        i <= r <= s@.len(),
{
    let n = s.unicode_len();
    let mut j = i;
    while j < n && !whitespace(s.get_char(j))
        invariant
            n == s@.len(),
            i <= j <= n,
            word_end(s@, i as int) == word_end(s@, j as int),
        decreases n - j,
    {
        j = j + 1;
    }
    j
}

fn next_word(s: &str, i: usize) -> (r: (Option<&str>, usize))
    requires
        i <= s@.len(),
    ensures
        r.0 matches Some(w) ==> word_from(s@, i as int).0 == Some(w@),
        r.0 is None ==> word_from(s@, i as int).0 is None,
        r.1 as int == word_from(s@, i as int).1,
        r.1 <= s@.len(),
{
    let a = skip_space_from(s, i);
    if a < s.unicode_len() {
        let b = word_end_from(s, a);
        (Some(s.substring_char(a, b)), b)
    } else {
        (None, s.unicode_len())
    }
}

/// Whether the definition of `from` refers to `to`.
pub open spec fn refers_to<K>(
    kinds: Seq<(String, KindDefinition<K>)>,
    from: Seq<char>,
    to: Seq<char>,
) -> bool {
    exists|i: int|
        0 <= i < kinds.len() && #[trigger] kinds[i].0@ == from && path_view(
            kinds[i].1.dependencies@,
        ).contains(to)
}

/// Whether `chain` starts at one of `roots` and each of its names refers
/// to the next.
pub open spec fn is_chain<K>(
    kinds: Seq<(String, KindDefinition<K>)>,
    roots: Seq<Seq<char>>,
    chain: Seq<Seq<char>>,
) -> bool {
    &&& chain.len() > 0
    &&& roots.contains(chain[0])
    &&& forall|i: int| 0 <= i < chain.len() - 1 ==> refers_to(kinds, #[trigger] chain[i], chain[i + 1])
}

/// Whether `name` is one of `roots` or is reached from them by references.
pub open spec fn is_related<K>(
    kinds: Seq<(String, KindDefinition<K>)>,
    roots: Seq<Seq<char>>,
    name: Seq<char>,
) -> bool {
    exists|chain: Seq<Seq<char>>| #[trigger] is_chain(kinds, roots, chain) && chain.last() == name
}

/// Whether `name` is declared in `c`, converted or in error, and is not
/// related to `roots`.
pub open spec fn is_unrelated_name<K>(c: Collection<K>, roots: Seq<Seq<char>>, name: Seq<char>) -> bool {
    (keys_of(c.kinds_view()).contains(name) || keys_of(c.erroring_kinds_view()).contains(name))
        && !is_related(c.kinds_view(), roots, name)
}

spec fn unexpanded(s: Seq<bool>) -> nat
    decreases s.len(),
{
    if s.len() == 0 {
        0
    } else {
        unexpanded(s.drop_last()) + if s.last() {
            0nat
        } else {
            1nat
        }
    }
}

proof fn lemma_expand_one(s: Seq<bool>, i: int)
    requires
        0 <= i < s.len(),
        !s[i],
    ensures
        unexpanded(s.update(i, true)) + 1 == unexpanded(s),
    decreases s.len(),
{
    if i == s.len() - 1 {
        assert(s.update(i, true).drop_last() =~= s.drop_last());
    } else {
        lemma_expand_one(s.drop_last(), i);
        assert(s.update(i, true).drop_last() =~= s.drop_last().update(i, true));
    }
}

proof fn lemma_related_found<K>(
    kinds: Seq<(String, KindDefinition<K>)>,
    roots: Seq<Seq<char>>,
    related: Seq<Seq<char>>,
    expanded: Seq<bool>,
    chain: Seq<Seq<char>>,
    n: int,
)
    requires
        expanded.len() == kinds.len(),
        forall|x: Seq<char>| roots.contains(x) ==> #[trigger] related.contains(x),
        forall|j: int, d: Seq<char>|
            0 <= j < kinds.len() && expanded[j] && #[trigger] path_view(
                kinds[j].1.dependencies@,
            ).contains(d) ==> related.contains(d),
        forall|j: int| 0 <= j < kinds.len() && related.contains(#[trigger] kinds[j].0@) ==> expanded[j],
        is_chain(kinds, roots, chain),
        0 <= n < chain.len(),
    ensures
        related.contains(chain[n]),
    decreases n,
{
    if n > 0 {
        lemma_related_found(kinds, roots, related, expanded, chain, n - 1);
        assert(refers_to(kinds, chain[n - 1], chain[n - 1 + 1]));
        let i = choose|i: int|
            0 <= i < kinds.len() && #[trigger] kinds[i].0@ == chain[n - 1] && path_view(
                kinds[i].1.dependencies@,
            ).contains(chain[n]);
        assert(expanded[i]);
    }
}

/// `after` is `before` without the declarations of `names`, converted or
/// in error; every entry left is an entry of `before`, and the other tables
/// are untouched.
pub open spec fn names_pruned<K>(before: Collection<K>, after: Collection<K>, names: Seq<Seq<char>>) -> bool {
    &&& forall|k: Seq<char>|
        #[trigger] keys_of(after.kinds_view()).contains(k) <==> (keys_of(
            before.kinds_view(),
        ).contains(k) && !names.contains(k))
    &&& forall|k: Seq<char>|
        #[trigger] keys_of(after.erroring_kinds_view()).contains(k) <==> (keys_of(
            before.erroring_kinds_view(),
        ).contains(k) && !names.contains(k))
    &&& forall|j: int|
        0 <= j < after.kinds_view().len() ==> before.kinds_view().contains(
            #[trigger] after.kinds_view()[j],
        )
    &&& forall|j: int|
        0 <= j < after.erroring_kinds_view().len() ==> before.erroring_kinds_view().contains(
            #[trigger] after.erroring_kinds_view()[j],
        )
    &&& after.components_view() == before.components_view()
    &&& after.functions_view() == before.functions_view()
    &&& after.erroring_functions_view() == before.erroring_functions_view()
}

/// `after` is `before` with an error behind the earlier ones for each type
/// that is referred to but neither converted nor in error, naming every
/// definition that refers to it; no other error is added.
pub open spec fn dependencies_met<K>(before: Collection<K>, after: Collection<K>) -> bool {
    &&& after.kinds_view() == before.kinds_view()
    &&& after.components_view() == before.components_view()
    &&& after.functions_view() == before.functions_view()
    &&& after.erroring_functions_view() == before.erroring_functions_view()
    &&& after.event_key_type_view() == before.event_key_type_view()
    &&& after.action_key_type_view() == before.action_key_type_view()
    &&& after.erroring_kinds_view().len() >= before.erroring_kinds_view().len()
    &&& after.erroring_kinds_view().take(before.erroring_kinds_view().len() as int)
        == before.erroring_kinds_view()
    &&& forall|j: int|
        before.erroring_kinds_view().len() <= j < after.erroring_kinds_view().len()
            ==> is_undeclared(
            before.kinds_view(),
            before.erroring_kinds_view(),
            (#[trigger] after.erroring_kinds_view()[j]).0@,
        ) && (after.erroring_kinds_view()[j].1 matches CollectionError::MissingType {
            name,
            dependents,
        } && name@ == after.erroring_kinds_view()[j].0@ && path_view(dependents@)
            == dependents_of(dependency_pairs(before.kinds_view()), name@) && dependents_of(
            dependency_pairs(before.kinds_view()),
            name@,
        ).len() > 0)
    &&& forall|q: int|
        0 <= q < dependency_pairs(before.kinds_view()).len() && is_undeclared(
            before.kinds_view(),
            before.erroring_kinds_view(),
            #[trigger] dependency_pairs(before.kinds_view())[q].1,
        ) ==> keys_of(after.erroring_kinds_view()).contains(
            dependency_pairs(before.kinds_view())[q].1,
        )
}

/// What one documentation tag of the declaration `node` does: `@component`
/// as first word records `node` as a component, rendered by the second word
/// or by `node` followed by `Render`; a tag that is exactly
/// `@feature_event_key` or `@feature_action_key` names `node` as the type
/// of those keys; any other tag changes nothing.
pub open spec fn tag_considered<K>(
    before: Collection<K>,
    after: Collection<K>,
    node: Seq<char>,
    tag: Seq<char>,
) -> bool {
    &&& after.kinds_view() == before.kinds_view()
    &&& after.erroring_kinds_view() == before.erroring_kinds_view()
    &&& after.functions_view() == before.functions_view()
    &&& after.erroring_functions_view() == before.erroring_functions_view()
    &&& if tag_label(tag) == Some(component_tag()) {
        &&& after.event_key_type_view() == before.event_key_type_view()
        &&& after.action_key_type_view() == before.action_key_type_view()
        &&& forall|k: Seq<char>|
            #[trigger] keys_of(after.components_view()).contains(k) <==> (keys_of(
                before.components_view(),
            ).contains(k) || k == node)
        &&& exists|i: int|
            0 <= i < after.components_view().len() && (#[trigger] after.components_view()[i]).0@
                == node && after.components_view()[i].1.render_name@ == match tag_context(tag) {
                Some(c) => c,
                None => default_render_name(node),
            } && after.components_view()[i].1.actions@.len() == 0
                && after.components_view()[i].1.events@.len() == 0
        &&& forall|i: int|
            0 <= i < after.components_view().len() && (#[trigger] after.components_view()[i]).0@
                != node ==> i < before.components_view().len() && after.components_view()[i]
                == before.components_view()[i]
    } else {
        &&& after.components_view() == before.components_view()
        &&& after.event_key_type_view() == if tag == event_key_tag() {
            Some(node)
        } else {
            before.event_key_type_view()
        }
        &&& after.action_key_type_view() == if tag != event_key_tag() && tag == action_key_tag() {
            Some(node)
        } else {
            before.action_key_type_view()
        }
    }
}

proof fn lemma_dependents_referenced(pairs: Seq<(Seq<char>, Seq<char>)>, name: Seq<char>)
    requires
        dependents_of(pairs, name).len() > 0,
    ensures
        exists|q: int| 0 <= q < pairs.len() && #[trigger] pairs[q].1 == name,
    decreases pairs.len(),
{
    if pairs.last().1 == name {
        assert(pairs[pairs.len() - 1].1 == name);
    } else {
        lemma_dependents_referenced(pairs.drop_last(), name);
        let q = choose|q: int| 0 <= q < pairs.drop_last().len() && #[trigger] pairs.drop_last()[q].1 == name;
        assert(pairs[q].1 == name);
    }
}

/// Recording missing types a second time adds nothing: after the first
/// time every referenced type is converted or in error.
pub proof fn lemma_dependencies_met_idempotent<K>(
    first: Collection<K>,
    second: Collection<K>,
    third: Collection<K>,
)
    requires
        dependencies_met(first, second),
        dependencies_met(second, third),
    ensures
        third.kinds_view() == second.kinds_view(),
        third.erroring_kinds_view() == second.erroring_kinds_view(),
        third.components_view() == second.components_view(),
        third.functions_view() == second.functions_view(),
        third.erroring_functions_view() == second.erroring_functions_view(),
{
    let n = second.erroring_kinds_view().len() as int;
    let pairs = dependency_pairs(second.kinds_view());
    if third.erroring_kinds_view().len() > n {
        let key = third.erroring_kinds_view()[n].0@;
        assert(is_undeclared(second.kinds_view(), second.erroring_kinds_view(), key));
        lemma_dependents_referenced(pairs, key);
        let q = choose|q: int| 0 <= q < pairs.len() && #[trigger] pairs[q].1 == key;
        if is_undeclared(first.kinds_view(), first.erroring_kinds_view(), key) {
            assert(keys_of(second.erroring_kinds_view()).contains(pairs[q].1));
        } else if keys_of(first.erroring_kinds_view()).contains(key) {
            let a = choose|a: int|
                0 <= a < keys_of(first.erroring_kinds_view()).len() && keys_of(
                    first.erroring_kinds_view(),
                )[a] == key;
            assert(second.erroring_kinds_view()[a] == first.erroring_kinds_view()[a]);
            assert(keys_of(second.erroring_kinds_view())[a] == key);
        }
    }
    assert(third.erroring_kinds_view() =~= second.erroring_kinds_view()) by {
        assert(third.erroring_kinds_view().len() == n);
        assert forall|i: int| 0 <= i < n implies third.erroring_kinds_view()[i]
            == second.erroring_kinds_view()[i] by {
            assert(third.erroring_kinds_view().take(n)[i] == third.erroring_kinds_view()[i]);
        }
    }
}

/// The function every renderer must export.
pub open spec fn start_function() -> Seq<char> {
    "start"@
}

/// Whether `name` must be exported, as `start` or as the render function of
/// a component, and is not.
pub open spec fn is_missing_function<K>(c: Collection<K>, name: Seq<char>) -> bool {
    !c.functions_view().contains(name) && (name == start_function() || exists|i: int|
        0 <= i < c.components_view().len() && (#[trigger] c.components_view()[i]).1.render_name@
            == name)
}

/// `after` is `before` with an error for each function that must be
/// exported and is not; the other tables are untouched.
pub open spec fn functions_checked<K>(before: Collection<K>, after: Collection<K>) -> bool {
    &&& after.kinds_view() == before.kinds_view()
    &&& after.erroring_kinds_view() == before.erroring_kinds_view()
    &&& after.components_view() == before.components_view()
    &&& after.functions_view() == before.functions_view()
    &&& forall|k: Seq<char>|
        #[trigger] keys_of(after.erroring_functions_view()).contains(k) <==> (keys_of(
            before.erroring_functions_view(),
        ).contains(k) || is_missing_function(before, k))
}

impl<K> Collection<K> {
    /// Every table has distinct keys.
    pub open spec fn wf(&self) -> bool {
        &&& distinct_keys(self.kinds_view())
        &&& distinct_keys(self.erroring_kinds_view())
        &&& distinct_keys(self.components_view())
        &&& self.functions_view().no_duplicates()
        &&& distinct_keys(self.erroring_functions_view())
    }

    /// The type that marks event keys, once a tag named it.
    pub closed spec fn event_key_type_view(&self) -> Option<Seq<char>> {
        match self.event_key_type_name {
            Some(n) => Some(n@),
            None => None,
        }
    }

    /// The type that marks action keys, once a tag named it.
    pub closed spec fn action_key_type_view(&self) -> Option<Seq<char>> {
        match self.action_key_type_name {
            Some(n) => Some(n@),
            None => None,
        }
    }

    /// The converted definitions, by name.
    pub closed spec fn kinds_view(&self) -> Seq<(String, KindDefinition<K>)> {
        self.kinds@
    }

    /// The names whose definition could not be converted or was missing,
    /// with the error.
    pub closed spec fn erroring_kinds_view(&self) -> Seq<(String, CollectionError)> {
        self.erroring_kinds@
    }

    /// The components, by name.
    pub closed spec fn components_view(&self) -> Seq<(String, ComponentInfo)> {
        self.components@
    }

    /// The names of the exported functions.
    pub closed spec fn functions_view(&self) -> Seq<Seq<char>> {
        keys_of(self.functions@)
    }

    /// The functions that are missing, with the error.
    pub closed spec fn erroring_functions_view(&self) -> Seq<(String, CollectionError)> {
        self.erroring_functions@
    }

    /// An empty collection.
    pub fn new() -> (r: Collection<K>)
        ensures
            r.wf(),
            r.kinds_view().len() == 0,
            r.erroring_kinds_view().len() == 0,
            r.components_view().len() == 0,
            r.functions_view().len() == 0,
            r.erroring_functions_view().len() == 0,
    {
        let r = Collection {
            action_key_type_name: None,
            event_key_type_name: None,
            kinds: Vec::new(),
            erroring_kinds: Vec::new(),
            components: Vec::new(),
            functions: Vec::new(),
            erroring_functions: Vec::new(),
        };
        assert(keys_of(r.kinds@) =~= Seq::<Seq<char>>::empty());
        assert(keys_of(r.erroring_kinds@) =~= Seq::<Seq<char>>::empty());
        assert(keys_of(r.components@) =~= Seq::<Seq<char>>::empty());
        assert(keys_of(r.functions@) =~= Seq::<Seq<char>>::empty());
        assert(keys_of(r.erroring_functions@) =~= Seq::<Seq<char>>::empty());
        r
    }

    /// Records the converted definition of `name`, replacing an earlier one.
    pub fn insert_kind(&mut self, name: String, definition: KindDefinition<K>)
        requires
            old(self).wf(),
        ensures
            final(self).wf(),
            forall|k: Seq<char>|
                #[trigger] keys_of(final(self).kinds_view()).contains(k) <==> (keys_of(
                    old(self).kinds_view(),
                ).contains(k) || k == name@),
            final(self).erroring_kinds_view() == old(self).erroring_kinds_view(),
            final(self).components_view() == old(self).components_view(),
            final(self).functions_view() == old(self).functions_view(),
            final(self).erroring_functions_view() == old(self).erroring_functions_view(),
    {
        let ghost k = name@;
        insert(&mut self.kinds, name, definition);
    }

    /// Records that the declaration of `name` could not be converted.
    pub fn insert_erroring_kind(&mut self, name: String, message: String)
        requires
            old(self).wf(),
        ensures
            final(self).wf(),
            final(self).kinds_view() == old(self).kinds_view(),
            forall|k: Seq<char>|
                #[trigger] keys_of(final(self).erroring_kinds_view()).contains(k) <==> (keys_of(
                    old(self).erroring_kinds_view(),
                ).contains(k) || k == name@),
            final(self).components_view() == old(self).components_view(),
            final(self).functions_view() == old(self).functions_view(),
            final(self).erroring_functions_view() == old(self).erroring_functions_view(),
    {
        let ghost k = name@;
        insert(&mut self.erroring_kinds, name, CollectionError::Conversion { message });
    }

    /// Records the component `name`.
    pub fn insert_component(&mut self, name: String, info: ComponentInfo)
        requires
            old(self).wf(),
        ensures
            final(self).wf(),
            final(self).kinds_view() == old(self).kinds_view(),
            final(self).erroring_kinds_view() == old(self).erroring_kinds_view(),
            forall|k: Seq<char>|
                #[trigger] keys_of(final(self).components_view()).contains(k) <==> (keys_of(
                    old(self).components_view(),
                ).contains(k) || k == name@),
            final(self).functions_view() == old(self).functions_view(),
            final(self).erroring_functions_view() == old(self).erroring_functions_view(),
    {
        let ghost k = name@;
        insert(&mut self.components, name, info);
    }

    /// Records that the function `name` is exported.
    pub fn insert_function(&mut self, name: String)
        requires
            old(self).wf(),
        ensures
            final(self).wf(),
            final(self).kinds_view() == old(self).kinds_view(),
            final(self).erroring_kinds_view() == old(self).erroring_kinds_view(),
            final(self).components_view() == old(self).components_view(),
            forall|k: Seq<char>|
                #[trigger] final(self).functions_view().contains(k) <==> (
                old(self).functions_view().contains(k) || k == name@),
            final(self).erroring_functions_view() == old(self).erroring_functions_view(),
    {
        let ghost k = name@;
        insert(&mut self.functions, name, ());
    }

    /// Notes the type that marks event keys.
    pub fn set_event_key_type_name(&mut self, name: String)
        requires
            old(self).wf(),
        ensures
            final(self).wf(),
            final(self).event_key_type_view() == Some(name@),
            final(self).action_key_type_view() == old(self).action_key_type_view(),
            final(self).kinds_view() == old(self).kinds_view(),
            final(self).erroring_kinds_view() == old(self).erroring_kinds_view(),
            final(self).components_view() == old(self).components_view(),
            final(self).functions_view() == old(self).functions_view(),
            final(self).erroring_functions_view() == old(self).erroring_functions_view(),
    {
        self.event_key_type_name = Some(name);
    }

    /// Notes the type that marks action keys.
    pub fn set_action_key_type_name(&mut self, name: String)
        requires
            old(self).wf(),
        ensures
            final(self).wf(),
            final(self).action_key_type_view() == Some(name@),
            final(self).event_key_type_view() == old(self).event_key_type_view(),
            final(self).kinds_view() == old(self).kinds_view(),
            final(self).erroring_kinds_view() == old(self).erroring_kinds_view(),
            final(self).components_view() == old(self).components_view(),
            final(self).functions_view() == old(self).functions_view(),
            final(self).erroring_functions_view() == old(self).erroring_functions_view(),
    {
        self.action_key_type_name = Some(name);
    }

    /// Applies one documentation tag of the declaration `node_name`.
    pub fn consider_js_doc_tag(&mut self, node_name: &str, tag: &str)
        requires
            old(self).wf(),
        ensures
            final(self).wf(),
            tag_considered(*old(self), *final(self), node_name@, tag@),
    {
        let (label, end) = next_word(tag, 0);
        let is_component = match label {
            Some(l) => String::from_str(l) == String::from_str("@component"),
            None => false,
        };
        if is_component {
            let (context, _) = next_word(tag, end);
            let render_name = match context {
                Some(c) => String::from_str(c),
                None => String::from_str(node_name).concat("Render"),
            };
            let ghost node = node_name@;
            let ghost render = render_name@;
            let info = ComponentInfo { render_name, actions: Vec::new(), events: Vec::new() };
            insert(&mut self.components, String::from_str(node_name), info);
            proof {
                let i = choose|i: int|
                    0 <= i < self.components@.len() && self.components@[i].0@ == node
                        && self.components@[i].1 == info;
                assert(self.components@[i].1.render_name@ == render);
                assert(render == match tag_context(tag@) {
                    Some(c) => c,
                    None => default_render_name(node),
                });
                assert(tag_label(tag@) == Some(component_tag()));
                assert(self.components@[i].1.actions@.len() == 0);
                assert(self.components_view()[i].0@ == node);
                assert(tag_considered(*old(self), *self, node, tag@));
            }
        } else {
            let text = String::from_str(tag);
            assert(tag_label(tag@) != Some(component_tag()));
            if text == String::from_str("@feature_event_key") {
                self.set_event_key_type_name(String::from_str(node_name));
            } else if text == String::from_str("@feature_action_key") {
                self.set_action_key_type_name(String::from_str(node_name));
            }
            assert(tag_considered(*old(self), *self, node_name@, tag@));
        }
    }

    /// Applies the documentation tags of the declaration `node_name` that
    /// the doc parser left uninterpreted, in order.
    pub fn consider_js_doc_tags(&mut self, node_name: &str, tags: &Vec<String>)
        requires
            old(self).wf(),
        ensures
            final(self).wf(),
            exists|states: Seq<Collection<K>>|
                states.len() == tags@.len() + 1 && states[0] == *old(self)
                    && states.last() == *final(self) && forall|i: int|
                    0 <= i < tags@.len() ==> #[trigger] tag_considered(
                        states[i],
                        states[i + 1],
                        node_name@,
                        tags@[i]@,
                    ),
    {
        let ghost states: Seq<Collection<K>> = seq![*self];
        let mut i: usize = 0;
        while i < tags.len()
            invariant
                i <= tags@.len(),
                self.wf(),
                states.len() == i + 1,
                states[0] == *old(self),
                states.last() == *self,
                forall|j: int|
                    0 <= j < i ==> #[trigger] tag_considered(
                        states[j],
                        states[j + 1],
                        node_name@,
                        tags@[j]@,
                    ),
            decreases tags@.len() - i,
        {
            self.consider_js_doc_tag(node_name, tags[i].as_str());
            proof {
                let next = states.push(*self);
                assert forall|j: int| 0 <= j < i + 1 implies #[trigger] tag_considered(
                    next[j],
                    next[j + 1],
                    node_name@,
                    tags@[j]@,
                ) by {
                    if j < i {
                        assert(next[j] == states[j] && next[j + 1] == states[j + 1]);
                    }
                }
                states = next;
            }
            i = i + 1;
        }
    }

    /// The type that marks event keys, if a tag named one.
    pub fn event_key_type_name(&self) -> (r: &Option<String>)
        ensures
            match *r {
                Some(n) => self.event_key_type_view() == Some(n@),
                None => self.event_key_type_view() is None,
            },
    {
        &self.event_key_type_name
    }

    /// The type that marks action keys, if a tag named one.
    pub fn action_key_type_name(&self) -> (r: &Option<String>)
        ensures
            match *r {
                Some(n) => self.action_key_type_view() == Some(n@),
                None => self.action_key_type_view() is None,
            },
    {
        &self.action_key_type_name
    }

    /// The components with their names.
    pub fn get_component_info(&self) -> (r: &Vec<(String, ComponentInfo)>)
        requires
            self.wf(),
        ensures
            r@ == self.components_view(),
            distinct_keys(r@),
    {
        &self.components
    }

    /// The converted definitions with their names.
    pub fn get_kinds(&self) -> (r: &Vec<(String, KindDefinition<K>)>)
        requires
            self.wf(),
        ensures
            r@ == self.kinds_view(),
            distinct_keys(r@),
    {
        &self.kinds
    }

    /// The names of all type declarations, converted ones first, then those
    /// in error.
    pub fn get_all_names(&self) -> (r: Vec<String>)
        ensures
            path_view(r@) == keys_of(self.kinds_view()) + keys_of(self.erroring_kinds_view()),
    {
        let mut names: Vec<String> = Vec::new();
        let mut i: usize = 0;
        while i < self.kinds.len()
            invariant
                i <= self.kinds@.len(),
                path_view(names@) == keys_of(self.kinds@.take(i as int)),
            decreases self.kinds@.len() - i,
        {
            let ghost old_names = names@;
            let name = self.kinds[i].0.clone();
            assert(name@ == self.kinds@[i as int].0@);
            names.push(name);
            assert(self.kinds@.take(i + 1) =~= self.kinds@.take(i as int).push(self.kinds@[i as int]));
            assert(keys_of(self.kinds@.take(i + 1)) =~= keys_of(self.kinds@.take(i as int)).push(
                self.kinds@[i as int].0@,
            ));
            assert(path_view(names@) =~= path_view(old_names).push(name@));
            i = i + 1;
            assert(path_view(names@) =~= keys_of(self.kinds@.take(i as int)));
        }
        assert(self.kinds@.take(i as int) =~= self.kinds@);
        let mut j: usize = 0;
        while j < self.erroring_kinds.len()
            invariant
                j <= self.erroring_kinds@.len(),
                path_view(names@) == keys_of(self.kinds@) + keys_of(
                    self.erroring_kinds@.take(j as int),
                ),
            decreases self.erroring_kinds@.len() - j,
        {
            let ghost old_names = names@;
            let name = self.erroring_kinds[j].0.clone();
            assert(name@ == self.erroring_kinds@[j as int].0@);
            names.push(name);
            assert(self.erroring_kinds@.take(j + 1) =~= self.erroring_kinds@.take(j as int).push(
                self.erroring_kinds@[j as int],
            ));
            assert(keys_of(self.erroring_kinds@.take(j + 1)) =~= keys_of(
                self.erroring_kinds@.take(j as int),
            ).push(self.erroring_kinds@[j as int].0@));
            assert(path_view(names@) =~= path_view(old_names).push(name@));
            j = j + 1;
            assert(path_view(names@) =~= keys_of(self.kinds@) + keys_of(
                self.erroring_kinds@.take(j as int),
            ));
        }
        assert(self.erroring_kinds@.take(j as int) =~= self.erroring_kinds@);
        names
    }

    /// All errors: those of type declarations, then those of functions.
    pub fn get_errors(&self) -> (r: Vec<&CollectionError>)
        ensures
            r@.map_values(|e: &CollectionError| *e) == values_of(self.erroring_kinds_view())
                + values_of(self.erroring_functions_view()),
    {
        let mut errors: Vec<&CollectionError> = Vec::new();
        let mut i: usize = 0;
        while i < self.erroring_kinds.len()
            invariant
                i <= self.erroring_kinds@.len(),
                errors@.map_values(|e: &CollectionError| *e) == values_of(
                    self.erroring_kinds@.take(i as int),
                ),
            decreases self.erroring_kinds@.len() - i,
        {
            let ghost old_errors = errors@;
            errors.push(&self.erroring_kinds[i].1);
            assert(self.erroring_kinds@.take(i + 1) =~= self.erroring_kinds@.take(i as int).push(
                self.erroring_kinds@[i as int],
            ));
            assert(values_of(self.erroring_kinds@.take(i + 1)) =~= values_of(
                self.erroring_kinds@.take(i as int),
            ).push(self.erroring_kinds@[i as int].1));
            assert(errors@.map_values(|e: &CollectionError| *e) =~= old_errors.map_values(
                |e: &CollectionError| *e,
            ).push(self.erroring_kinds@[i as int].1));
            i = i + 1;
            assert(errors@.map_values(|e: &CollectionError| *e) =~= values_of(
                self.erroring_kinds@.take(i as int),
            ));
        }
        assert(self.erroring_kinds@.take(i as int) =~= self.erroring_kinds@);
        let mut j: usize = 0;
        while j < self.erroring_functions.len()
            invariant
                j <= self.erroring_functions@.len(),
                errors@.map_values(|e: &CollectionError| *e) == values_of(self.erroring_kinds@)
                    + values_of(
                    self.erroring_functions@.take(j as int),
                ),
            decreases self.erroring_functions@.len() - j,
        {
            let ghost old_errors = errors@;
            errors.push(&self.erroring_functions[j].1);
            assert(self.erroring_functions@.take(j + 1) =~= self.erroring_functions@.take(
                j as int,
            ).push(self.erroring_functions@[j as int]));
            assert(values_of(self.erroring_functions@.take(j + 1)) =~= values_of(
                self.erroring_functions@.take(j as int),
            ).push(self.erroring_functions@[j as int].1));
            assert(errors@.map_values(|e: &CollectionError| *e) =~= old_errors.map_values(
                |e: &CollectionError| *e,
            ).push(self.erroring_functions@[j as int].1));
            j = j + 1;
            assert(errors@.map_values(|e: &CollectionError| *e) =~= values_of(
                self.erroring_kinds@,
            ) + values_of(
                self.erroring_functions@.take(j as int),
            ));
        }
        assert(self.erroring_functions@.take(j as int) =~= self.erroring_functions@);
        errors
    }

    /// Records an error for each type that definitions refer to but that is
    /// neither converted nor in error, naming every definition that refers
    /// to it. Earlier errors keep their place, the new ones follow.
    pub fn meet_all_dependencies(&mut self)
        requires
            old(self).wf(),
        ensures
            final(self).wf(),
            dependencies_met(*old(self), *final(self)),
    {
        let mut missing: Vec<(String, Vec<String>)> = Vec::new();
        proof {
            assert(self.kinds@.take(0) =~= Seq::<(String, KindDefinition<K>)>::empty());
            assert(keys_of(missing@) =~= Seq::<Seq<char>>::empty());
        }
        let mut i: usize = 0;
        while i < self.kinds.len()
            invariant
                i <= self.kinds@.len(),
                *self == *old(self),
                missing_ok(
                    missing@,
                    self.kinds@,
                    self.erroring_kinds@,
                    dependency_pairs(self.kinds@.take(i as int)),
                ),
            decreases self.kinds@.len() - i,
        {
            let ghost prefix = dependency_pairs(self.kinds@.take(i as int));
            let ghost entry = self.kinds@[i as int];
            let mut j: usize = 0;
            proof {
                assert(prefix + pairs_of(entry).take(0) =~= prefix);
            }
            while j < self.kinds[i].1.dependencies.len()
                invariant
                    i < self.kinds@.len(),
                    entry == self.kinds@[i as int],
                    j <= entry.1.dependencies@.len(),
                    *self == *old(self),
                    missing_ok(
                        missing@,
                        self.kinds@,
                        self.erroring_kinds@,
                        prefix + pairs_of(entry).take(j as int),
                    ),
                decreases entry.1.dependencies@.len() - j,
            {
                let ghost before = missing@;
                let dep = self.kinds[i].1.dependencies[j].as_str();
                let ghost pair = (entry.0@, dep@);
                let declared = index_of(&self.kinds, dep).is_some() || index_of(
                    &self.erroring_kinds,
                    dep,
                ).is_some();
                if !declared {
                    match index_of(&missing, dep) {
                        Some(m) => {
                            let mut dependents = borrow_scope(&missing[m].1);
                            dependents.push(self.kinds[i].0.clone());
                            let key = missing[m].0.clone();
                            missing.set(m, (key, dependents));
                            proof {
                                assert(path_view(missing@[m as int].1@) =~= path_view(
                                    before[m as int].1@,
                                ).push(pair.0));
                            }
                        },
                        None => {
                            let key = String::from_str(dep);
                            let dependents = vec![self.kinds[i].0.clone()];
                            missing.push((key, dependents));
                            proof {
                                assert(missing@.drop_last() =~= before);
                                assert(path_view(missing@.last().1@) =~= seq![pair.0]);
                            }
                        },
                    }
                }
                proof {
                    let done = prefix + pairs_of(entry).take(j as int);
                    lemma_missing_step(
                        before,
                        missing@,
                        self.kinds@,
                        self.erroring_kinds@,
                        done,
                        pair,
                    );
                    assert(prefix + pairs_of(entry).take(j + 1) =~= done.push(pair));
                }
                j = j + 1;
            }
            proof {
                assert(self.kinds@.take(i + 1).drop_last() =~= self.kinds@.take(i as int));
                assert(pairs_of(entry).take(j as int) =~= pairs_of(entry));
            }
            i = i + 1;
        }
        proof {
            assert(self.kinds@.take(i as int) =~= self.kinds@);
        }
        let ghost pairs = dependency_pairs(self.kinds@);
        let ghost start = self.erroring_kinds@;
        let mut k: usize = 0;
        while k < missing.len()
            invariant
                k <= missing@.len(),
                missing_ok(missing@, old(self).kinds@, start, pairs),
                start == old(self).erroring_kinds@,
                self.event_key_type_name == old(self).event_key_type_name,
                self.action_key_type_name == old(self).action_key_type_name,
                self.kinds@ == old(self).kinds@,
                self.components@ == old(self).components@,
                self.functions@ == old(self).functions@,
                self.erroring_functions@ == old(self).erroring_functions@,
                distinct_keys(self.kinds@),
                distinct_keys(self.components@),
                distinct_keys(self.functions@),
                distinct_keys(self.erroring_functions@),
                distinct_keys(start),
                self.erroring_kinds@.len() == start.len() + k,
                self.erroring_kinds@.take(start.len() as int) == start,
                keys_of(self.erroring_kinds@) == keys_of(start) + keys_of(missing@.take(k as int)),
                forall|j: int|
                    start.len() <= j < self.erroring_kinds@.len() ==> (
                    #[trigger] self.erroring_kinds@[j]).0@ == missing@[j - start.len()].0@ && (
                    self.erroring_kinds@[j].1 matches CollectionError::MissingType {
                        name,
                        dependents,
                    } && name@ == missing@[j - start.len()].0@ && path_view(dependents@)
                        == path_view(missing@[j - start.len()].1@) && dependents@.len() > 0),
            decreases missing@.len() - k,
        {
            let ghost before = self.erroring_kinds@;
            let key = missing[k].0.clone();
            let name = missing[k].0.clone();
            let dependents = borrow_scope(&missing[k].1);
            self.erroring_kinds.push((key, CollectionError::MissingType { name, dependents }));
            proof {
                assert(missing@.take(k + 1) =~= missing@.take(k as int).push(missing@[k as int]));
                assert(keys_of(self.erroring_kinds@) =~= keys_of(before).push(missing@[k as int].0@));
                assert(keys_of(missing@.take(k + 1)) =~= keys_of(missing@.take(k as int)).push(
                    missing@[k as int].0@,
                ));
                assert(self.erroring_kinds@.take(start.len() as int) =~= before.take(
                    start.len() as int,
                ));
            }
            k = k + 1;
        }
        proof {
            assert(missing@.take(k as int) =~= missing@);
            assert forall|a: int, b: int|
                0 <= a < keys_of(start).len() && 0 <= b < keys_of(missing@).len() implies keys_of(
                    start,
                )[a] != keys_of(missing@)[b] by {
                assert(is_undeclared(old(self).kinds@, start, missing@[b].0@));
                assert(keys_of(start).contains(keys_of(start)[a]));
            }
            vstd::seq_lib::lemma_no_dup_in_concat(keys_of(start), keys_of(missing@));
            assert forall|q: int|
                0 <= q < pairs.len() && is_undeclared(old(self).kinds@, start, #[trigger] pairs[q].1)
                    implies keys_of(self.erroring_kinds@).contains(pairs[q].1) by {
                let b = choose|b: int| 0 <= b < keys_of(missing@).len() && keys_of(missing@)[b] == pairs[q].1;
                assert(keys_of(self.erroring_kinds@)[start.len() + b] == pairs[q].1);
            }
        }
    }

    /// The declared names, converted or in error, that neither are among
    /// `names` nor are reached from them through the references of the
    /// definitions; each once.
    pub fn get_unrelated_names(&self, names: &Vec<String>) -> (r: Vec<String>)
        ensures
            path_view(r@).no_duplicates(),
            forall|x: Seq<char>|
                #[trigger] path_view(r@).contains(x) <==> is_unrelated_name(*self, path_view(names@), x),
    {
        let ghost roots = path_view(names@);
        let ghost kinds = self.kinds@;
        let mut related = borrow_scope(names);
        proof {
            assert forall|x: Seq<char>| #[trigger] path_view(related@).contains(x) implies is_related(
                kinds,
                roots,
                x,
            ) by {
                assert(is_chain(kinds, roots, seq![x]));
            }
        }
        let mut expanded: Vec<bool> = Vec::new();
        let mut i: usize = 0;
        while i < self.kinds.len()
            invariant
                i <= kinds.len(),
                kinds == self.kinds@,
                expanded@.len() == i,
                forall|j: int| 0 <= j < i ==> !expanded@[j],
            decreases kinds.len() - i,
        {
            expanded.push(false);
            i = i + 1;
        }
        let mut changed = true;
        while changed
            invariant
                kinds == self.kinds@,
                roots == path_view(names@),
                expanded@.len() == kinds.len(),
                forall|x: Seq<char>| #[trigger] path_view(related@).contains(x) ==> is_related(kinds, roots, x),
                forall|x: Seq<char>| roots.contains(x) ==> #[trigger] path_view(related@).contains(x),
                forall|j: int, d: Seq<char>|
                    0 <= j < kinds.len() && expanded@[j] && #[trigger] path_view(
                        kinds[j].1.dependencies@,
                    ).contains(d) ==> path_view(related@).contains(d),
                !changed ==> forall|j: int|
                    0 <= j < kinds.len() && path_view(related@).contains(#[trigger] kinds[j].0@)
                        ==> expanded@[j],
            decreases unexpanded(expanded@) + if changed {
                1nat
            } else {
                0nat
            },
        {
            changed = false;
            let ghost start = unexpanded(expanded@);
            let mut i: usize = 0;
            while i < self.kinds.len()
                invariant
                    i <= kinds.len(),
                    kinds == self.kinds@,
                    expanded@.len() == kinds.len(),
                    forall|x: Seq<char>| #[trigger] path_view(related@).contains(x) ==> is_related(kinds, roots, x),
                    forall|x: Seq<char>| roots.contains(x) ==> #[trigger] path_view(related@).contains(x),
                    forall|j: int, d: Seq<char>|
                        0 <= j < kinds.len() && expanded@[j] && #[trigger] path_view(
                            kinds[j].1.dependencies@,
                        ).contains(d) ==> path_view(related@).contains(d),
                    !changed ==> unexpanded(expanded@) == start,
                    !changed ==> forall|j: int|
                        0 <= j < i && path_view(related@).contains(#[trigger] kinds[j].0@)
                            ==> expanded@[j],
                    changed ==> unexpanded(expanded@) < start,
                decreases kinds.len() - i,
            {
                if !expanded[i] && contains_segment(&related, self.kinds[i].0.as_str()) {
                    let ghost name = kinds[i as int].0@;
                    let ghost deps = kinds[i as int].1.dependencies@;
                    let ghost before = related@;
                    let ghost chain = choose|chain: Seq<Seq<char>>|
                        #[trigger] is_chain(kinds, roots, chain) && chain.last() == name;
                    proof {
                        lemma_expand_one(expanded@, i as int);
                    }
                    expanded.set(i, true);
                    let mut j: usize = 0;
                    while j < self.kinds[i].1.dependencies.len()
                        invariant
                            i < kinds.len(),
                            kinds == self.kinds@,
                            deps == kinds[i as int].1.dependencies@,
                            name == kinds[i as int].0@,
                            is_chain(kinds, roots, chain),
                            chain.last() == name,
                            j <= deps.len(),
                            forall|x: Seq<char>| #[trigger] path_view(related@).contains(x) ==> is_related(kinds, roots, x),
                            forall|x: Seq<char>| path_view(before).contains(x) ==> #[trigger] path_view(related@).contains(x),
                            forall|k: int| 0 <= k < j ==> path_view(related@).contains(#[trigger] deps[k]@),
                        decreases deps.len() - j,
                    {
                        let ghost prev = related@;
                        let dep = self.kinds[i].1.dependencies[j].clone();
                        proof {
                            assert(path_view(deps)[j as int] == dep@);
                            assert(refers_to(kinds, name, dep@)) by {
                                assert(kinds[i as int].0@ == name);
                            }
                            let longer = chain.push(dep@);
                            assert forall|q: int| 0 <= q < longer.len() - 1 implies refers_to(
                                kinds,
                                #[trigger] longer[q],
                                longer[q + 1],
                            ) by {
                                if q < chain.len() - 1 {
                                    assert(longer[q] == chain[q] && longer[q + 1] == chain[q + 1]);
                                }
                            }
                            assert(is_chain(kinds, roots, longer));
                            assert(is_related(kinds, roots, dep@));
                        }
                        let ghost d = dep@;
                        related.push(dep);
                        proof {
                            assert(path_view(related@) =~= path_view(prev).push(deps[j as int]@));
                            assert forall|x: Seq<char>| #[trigger] path_view(related@).contains(x)
                                implies is_related(kinds, roots, x) by {
                                let k = choose|k: int| 0 <= k < path_view(related@).len() && path_view(related@)[k] == x;
                                if k < prev.len() {
                                    assert(path_view(prev)[k] == x);
                                    assert(path_view(prev).contains(x));
                                } else {
                                    assert(x == d);
                                }
                            }
                            assert forall|x: Seq<char>| path_view(prev).contains(x) implies #[trigger] path_view(related@).contains(x) by {
                                let k = choose|k: int| 0 <= k < path_view(prev).len() && path_view(prev)[k] == x;
                                assert(path_view(related@)[k] == x);
                            }
                            assert(path_view(related@)[prev.len() as int] == deps[j as int]@);
                        }
                        j = j + 1;
                    }
                    proof {
                        assert forall|d: Seq<char>| #[trigger] path_view(deps).contains(d) implies path_view(related@).contains(d) by {
                            let k = choose|k: int| 0 <= k < path_view(deps).len() && path_view(deps)[k] == d;
                            assert(deps[k]@ == d);
                        }
                    }
                    changed = true;
                }
                i = i + 1;
            }
        }
        proof {
            assert forall|x: Seq<char>| #[trigger] path_view(related@).contains(x) == is_related(kinds, roots, x) by {
                if is_related(kinds, roots, x) {
                    let chain = choose|chain: Seq<Seq<char>>|
                        #[trigger] is_chain(kinds, roots, chain) && chain.last() == x;
                    lemma_related_found(
                        kinds,
                        roots,
                        path_view(related@),
                        expanded@,
                        chain,
                        chain.len() - 1,
                    );
                }
            }
        }
        let all = self.get_all_names();
        let ghost all_v = path_view(all@);
        let mut out: Vec<String> = Vec::new();
        let mut k: usize = 0;
        proof {
            assert(path_view(out@) =~= Seq::<Seq<char>>::empty());
        }
        while k < all.len()
            invariant
                k <= all@.len(),
                all_v == path_view(all@),
                forall|x: Seq<char>| #[trigger] path_view(related@).contains(x) == is_related(kinds, roots, x),
                path_view(out@).no_duplicates(),
                forall|x: Seq<char>|
                    #[trigger] path_view(out@).contains(x) <==> (all_v.take(k as int).contains(x)
                        && !is_related(kinds, roots, x)),
            decreases all@.len() - k,
        {
            let ghost prev = path_view(out@);
            let ghost e = all_v[k as int];
            let name = all[k].as_str();
            let keep = !contains_segment(&related, name) && !contains_segment(&out, name);
            if keep {
                out.push(all[k].clone());
                assert(path_view(out@) =~= prev.push(e));
            }
            proof {
                assert(all_v.take(k + 1) =~= all_v.take(k as int).push(e));
                lemma_push_contains(all_v.take(k as int), e);
                lemma_push_contains(prev, e);
            }
            k = k + 1;
        }
        proof {
            assert(all_v.take(k as int) =~= all_v);
            let ka = keys_of(self.kinds@);
            let ke = keys_of(self.erroring_kinds@);
            assert forall|x: Seq<char>| #[trigger] all_v.contains(x) <==> (ka.contains(x) || ke.contains(x)) by {
                if all_v.contains(x) {
                    let j = choose|j: int| 0 <= j < all_v.len() && all_v[j] == x;
                    if j < ka.len() {
                        assert(ka[j] == x);
                    } else {
                        assert(ke[j - ka.len()] == x);
                    }
                }
                if ka.contains(x) {
                    let j = choose|j: int| 0 <= j < ka.len() && ka[j] == x;
                    assert(all_v[j] == x);
                }
                if ke.contains(x) {
                    let j = choose|j: int| 0 <= j < ke.len() && ke[j] == x;
                    assert(all_v[ka.len() + j] == x);
                }
            }
        }
        out
    }

    /// Keeps only the declarations that the components need, records the
    /// types they refer to that are missing, and records the functions that
    /// must be exported and are not.
    pub fn check_components(&mut self)
        requires
            old(self).wf(),
        ensures
            final(self).wf(),
            exists|unrelated: Seq<Seq<char>>, pruned: Collection<K>, met: Collection<K>|
                (forall|x: Seq<char>|
                    #[trigger] unrelated.contains(x) <==> is_unrelated_name(
                        *old(self),
                        keys_of(old(self).components_view()),
                        x,
                    )) && #[trigger] names_pruned(*old(self), pruned, unrelated)
                    && #[trigger] dependencies_met(pruned, met) && functions_checked(met, *final(self)),
    {
        let mut components: Vec<String> = Vec::new();
        let mut i: usize = 0;
        while i < self.components.len()
            invariant
                *self == *old(self),
                i <= self.components@.len(),
                path_view(components@) == keys_of(self.components@.take(i as int)),
            decreases self.components@.len() - i,
        {
            let ghost before = components@;
            let name = self.components[i].0.clone();
            components.push(name);
            proof {
                assert(self.components@.take(i + 1) =~= self.components@.take(i as int).push(
                    self.components@[i as int],
                ));
                assert(path_view(components@) =~= path_view(before).push(
                    self.components@[i as int].0@,
                ));
                assert(keys_of(self.components@.take(i + 1)) =~= keys_of(
                    self.components@.take(i as int),
                ).push(self.components@[i as int].0@));
            }
            i = i + 1;
        }
        proof {
            assert(self.components@.take(i as int) =~= self.components@);
        }
        let unreachable_names = self.get_unrelated_names(&components);
        self.prune_names(&unreachable_names);
        let ghost pruned = *self;
        self.meet_all_dependencies();
        let ghost met = *self;
        let start = String::from_str("start");
        if !contains_key(&self.functions, start.as_str()) {
            let name = String::from_str("start");
            insert(
                &mut self.erroring_functions,
                start,
                CollectionError::MissingFunction { name, component: None },
            );
        }
        proof {
            assert forall|k: Seq<char>| #[trigger] keys_of(self.erroring_functions@).contains(k) <==> (
                keys_of(met.erroring_functions_view()).contains(k) || (k == start_function()
                    && !met.functions_view().contains(k))) by {}
        }
        let mut c: usize = 0;
        while c < self.components.len()
            invariant
                self.wf(),
                c <= self.components@.len(),
                self.kinds@ == met.kinds_view(),
                self.erroring_kinds@ == met.erroring_kinds_view(),
                self.components@ == met.components_view(),
                keys_of(self.functions@) == met.functions_view(),
                self.functions@ == met.functions@,
                forall|k: Seq<char>|
                    #[trigger] keys_of(self.erroring_functions@).contains(k) <==> (keys_of(
                        met.erroring_functions_view(),
                    ).contains(k) || (!met.functions_view().contains(k) && (k == start_function()
                        || exists|j: int|
                        0 <= j < c && (#[trigger] met.components_view()[j]).1.render_name@ == k))),
            decreases self.components@.len() - c,
        {
            let render = self.components[c].1.render_name.as_str();
            let ghost r = render@;
            if !contains_key(&self.functions, render) {
                let key = String::from_str(render);
                let name = String::from_str(render);
                let component = Some(self.components[c].0.clone());
                insert(
                    &mut self.erroring_functions,
                    key,
                    CollectionError::MissingFunction { name, component },
                );
            }
            proof {
                assert forall|k: Seq<char>|
                    #[trigger] keys_of(self.erroring_functions@).contains(k) <==> (keys_of(
                        met.erroring_functions_view(),
                    ).contains(k) || (!met.functions_view().contains(k) && (k == start_function()
                        || exists|j: int|
                        0 <= j < c + 1 && (#[trigger] met.components_view()[j]).1.render_name@
                            == k))) by {
                    if exists|j: int|
                        0 <= j < c + 1 && (#[trigger] met.components_view()[j]).1.render_name@
                            == k {
                        let j = choose|j: int|
                            0 <= j < c + 1 && (#[trigger] met.components_view()[j]).1.render_name@
                                == k;
                        if j < c {
                            assert(exists|j2: int|
                                0 <= j2 < c && (#[trigger] met.components_view()[j2]).1.render_name@
                                    == k);
                        }
                    }
                }
            }
            c = c + 1;
        }
        proof {
            assert(functions_checked(met, *self));
            assert(names_pruned(*old(self), pruned, path_view(unreachable_names@)));
        }
    }

    /// Drops the declarations of `names`, converted or in error.
    pub fn prune_names(&mut self, names: &Vec<String>)
        requires
            old(self).wf(),
        ensures
            final(self).wf(),
            names_pruned(*old(self), *final(self), path_view(names@)),
    {
        let mut i: usize = 0;
        while i < names.len()
            invariant
                i <= names@.len(),
                self.wf(),
                forall|k: Seq<char>|
                    #[trigger] keys_of(self.kinds@).contains(k) <==> (keys_of(
                        old(self).kinds@,
                    ).contains(k) && !path_view(names@.take(i as int)).contains(k)),
                forall|k: Seq<char>|
                    #[trigger] keys_of(self.erroring_kinds@).contains(k) <==> (keys_of(
                        old(self).erroring_kinds@,
                    ).contains(k) && !path_view(names@.take(i as int)).contains(k)),
                forall|j: int|
                    0 <= j < self.kinds@.len() ==> old(self).kinds@.contains(#[trigger] self.kinds@[j]),
                forall|j: int|
                    0 <= j < self.erroring_kinds@.len() ==> old(self).erroring_kinds@.contains(
                        #[trigger] self.erroring_kinds@[j],
                    ),
                self.components@ == old(self).components@,
                self.functions@ == old(self).functions@,
                self.erroring_functions@ == old(self).erroring_functions@,
            decreases names@.len() - i,
        {
            let name = names[i].as_str();
            let ghost k0 = self.kinds@;
            let ghost e0 = self.erroring_kinds@;
            remove(&mut self.kinds, name);
            remove(&mut self.erroring_kinds, name);
            proof {
                assert forall|j: int| 0 <= j < self.kinds@.len() implies old(self).kinds@.contains(
                    #[trigger] self.kinds@[j],
                ) by {
                    let a = choose|a: int| 0 <= a < k0.len() && k0[a] == self.kinds@[j];
                    assert(old(self).kinds@.contains(k0[a]));
                }
                assert forall|j: int| 0 <= j < self.erroring_kinds@.len() implies old(
                    self,
                ).erroring_kinds@.contains(#[trigger] self.erroring_kinds@[j]) by {
                    let a = choose|a: int| 0 <= a < e0.len() && e0[a] == self.erroring_kinds@[j];
                    assert(old(self).erroring_kinds@.contains(e0[a]));
                }
                let before = path_view(names@.take(i as int));
                let after = path_view(names@.take(i + 1));
                assert(after =~= before.push(names@[i as int]@));
                assert forall|k: Seq<char>| #[trigger] after.contains(k) <==> (before.contains(k)
                    || k == names@[i as int]@) by {
                    if after.contains(k) {
                        let j = choose|j: int| 0 <= j < after.len() && after[j] == k;
                        if j < before.len() {
                            assert(before[j] == k);
                        }
                    }
                    if before.contains(k) {
                        let j = choose|j: int| 0 <= j < before.len() && before[j] == k;
                        assert(after[j] == k);
                    }
                    if k == names@[i as int]@ {
                        assert(after[i as int] == k);
                    }
                }
            }
            i = i + 1;
        }
        assert(names@.take(i as int) =~= names@);
    }
}

} // verus!
