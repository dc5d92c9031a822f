//! Corpus-wide proof that a named method is declared by a contract the
//! subject's enclosing type derives from.
//!
//! The base must actually declare the method: reading "the enclosing type
//! names some base" as proof would make every ordinary subclass a contract
//! implementation. Two same-named types in one language merge, which can
//! only add a declared member, so the index answers "some type by this
//! name declares this member".

use vstd::prelude::*;

use crate::text::byte_strings_view;
use super::snippets::{parse_with_plugin, spec_plugin_parse};
use super::{spec_function_kinds, SyntaxNode};
use crate::cluster::exact_runs::SourceFile;
use crate::cluster::scope::{language_for, spec_language_of, FileLanguage};
use crate::text::same_text;
use declarers::{
    declared_bases, declared_type_name, is_declarer, member_names, spec_declared_bases,
    spec_declared_type_name, spec_is_declarer, spec_member_names,
};
use crate::text::{owned_listed, same_bytes, slice_listed, slices_view};

pub mod declarers;

verus! {

/// What one declared type contributes to the index.
pub struct TypeFacts {
    /// Simple names of the types this one derives from.
    pub bases: Vec<Vec<u8>>,
    /// Names of the members this type declares itself.
    pub members: Vec<Vec<u8>>,
}

/// One declared type name with its merged facts.
pub struct DeclaredType {
    /// The type's simple name.
    pub name: Vec<u8>,
    /// Its bases and members.
    pub facts: TypeFacts,
}

/// Corpus-wide map from declared type name to its facts.
pub struct ContractIndex {
    /// One entry per name; the first entry of a name is the one read.
    pub types: Vec<DeclaredType>,
}

/// The model of a [`DeclaredType`].
pub struct TypeView {
    /// The type's simple name.
    pub name: Seq<u8>,
    /// Its bases.
    pub bases: Seq<Seq<u8>>,
    /// Its declared members.
    pub members: Seq<Seq<u8>>,
}

impl View for DeclaredType {
    type V = TypeView;

    open spec fn view(&self) -> TypeView {
        TypeView {
            name: self.name@,
            bases: byte_strings_view(self.facts.bases@),
            members: byte_strings_view(self.facts.members@),
        }
    }
}

/// The models of the index's entries.
pub open spec fn types_view(types: Seq<DeclaredType>) -> Seq<TypeView> {
    types.map_values(|entry: DeclaredType| entry@)
}

/// The entry read for `name`: the first naming it.
pub open spec fn spec_facts(types: Seq<TypeView>, name: Seq<u8>) -> Option<TypeView>
    decreases types.len(),
{
    if types.len() == 0 {
        None
    } else if types[0].name == name {
        Some(types[0])
    } else {
        spec_facts(types.drop_first(), name)
    }
}

/// The bases the index records for `name`; none for an unknown name.
pub open spec fn spec_bases_of(types: Seq<TypeView>, name: Seq<u8>) -> Seq<Seq<u8>> {
    match spec_facts(types, name) {
        Some(entry) => entry.bases,
        None => seq![],
    }
}

/// Whether the type the index records for `name` declares `method` itself.
pub open spec fn spec_declares_itself(types: Seq<TypeView>, name: Seq<u8>, method: Seq<u8>) -> bool {
    match spec_facts(types, name) {
        Some(entry) => entry.members.contains(method),
        None => false,
    }
}

/// A chain of names from one of `start`, each a recorded base of the one
/// before it.
pub open spec fn spec_base_chain(types: Seq<TypeView>, start: Seq<Seq<u8>>, chain: Seq<Seq<u8>>) -> bool {
    &&& chain.len() > 0
    &&& start.contains(chain[0])
    &&& forall|i: int| 0 <= i < chain.len() - 1 ==> spec_bases_of(types, #[trigger] chain[i]).contains(chain[i + 1])
}

/// Whether `name` is a transitive base of `start` (or one of them).
pub open spec fn spec_reachable(types: Seq<TypeView>, start: Seq<Seq<u8>>, name: Seq<u8>) -> bool {
    exists|chain: Seq<Seq<u8>>| #[trigger] spec_base_chain(types, start, chain) && chain.last() == name
}

/// Whether `method` is declared by any transitive base of `start`.
pub open spec fn spec_declares(types: Seq<TypeView>, start: Seq<Seq<u8>>, method: Seq<u8>) -> bool {
    exists|name: Seq<u8>| #[trigger] spec_reachable(types, start, name) && spec_declares_itself(types, name, method)
}

/// Every base name the index records, entry by entry.
pub open spec fn spec_all_bases(types: Seq<TypeView>) -> Seq<Seq<u8>>
    decreases types.len(),
{
    if types.len() == 0 {
        seq![]
    } else {
        types[0].bases + spec_all_bases(types.drop_first())
    }
}

proof fn lemma_bases_recorded(types: Seq<TypeView>, name: Seq<u8>, base: Seq<u8>)
    requires
        spec_bases_of(types, name).contains(base),
    ensures
        spec_all_bases(types).contains(base),
    decreases types.len(),
{
    if types.len() > 0 {
        let here = types[0].bases;
        let rest = spec_all_bases(types.drop_first());
        if types[0].name == name {
            let i = choose|i: int| 0 <= i < here.len() && here[i] == base;
            assert((here + rest)[i] == base);
        } else {
            lemma_bases_recorded(types.drop_first(), name, base);
            let i = choose|i: int| 0 <= i < rest.len() && rest[i] == base;
            assert((here + rest)[here.len() + i] == base);
        }
    }
}

/// A set holding `start` and the bases of each of its names holds every
/// name of a base chain.
proof fn lemma_closed_set_holds_chain(types: Seq<TypeView>, start: Seq<Seq<u8>>, closed: Set<Seq<u8>>, chain: Seq<Seq<u8>>, k: int)
    requires
        forall|n: Seq<u8>| start.contains(n) ==> closed.contains(n),
        forall|n: Seq<u8>, b: Seq<u8>| closed.contains(n) && #[trigger] spec_bases_of(types, n).contains(b) ==> closed.contains(b),
        spec_base_chain(types, start, chain),
        0 <= k < chain.len(),
    ensures
        closed.contains(chain[k]),
    decreases k,
{
    if k > 0 {
        lemma_closed_set_holds_chain(types, start, closed, chain, k - 1);
        assert(spec_bases_of(types, chain[k - 1]).contains(chain[k]));
    }
}

fn push_names<'a>(queue: &mut Vec<&'a [u8]>, bases: &'a Vec<Vec<u8>>)
    ensures
        final(queue)@.len() == old(queue)@.len() + bases@.len(),
        slices_view(final(queue)@) == slices_view(old(queue)@) + byte_strings_view(bases@),
{
    let ghost before = slices_view(queue@);
    let ghost before_len = queue@.len();
    let mut index: usize = 0;
    while index < bases.len()
        invariant
            index <= bases@.len(),
            before.len() == before_len,
            queue@.len() == before_len + index,
            slices_view(queue@) == before + byte_strings_view(bases@).take(index as int),
        decreases bases@.len() - index,
    {
        let ghost previous = queue@;
        queue.push(bases[index].as_slice());
        assert(byte_strings_view(bases@)[index as int] == bases@[index as int]@);
        assert(byte_strings_view(bases@).len() == bases@.len());
        assert(slices_view(queue@).len() == queue@.len());
        assert(slices_view(queue@)[previous.len() as int] == bases@[index as int]@);
        assert forall|j: int| 0 <= j < previous.len() implies slices_view(queue@)[j] == slices_view(previous)[j] by {
            assert(queue@[j] == previous[j]);
        }
        let ghost target = before + byte_strings_view(bases@).take(index as int + 1);
        assert forall|j: int| 0 <= j < target.len() implies slices_view(queue@)[j] == target[j] by {
            if j < previous.len() {
                assert(slices_view(previous)[j] == (before + byte_strings_view(bases@).take(index as int))[j]);
            }
        }
        assert(slices_view(queue@) =~= target);
        index = index + 1;
    }
    assert(byte_strings_view(bases@).take(bases@.len() as int) =~= byte_strings_view(bases@));
}

/// A base of a reached name is reached one step later.
proof fn lemma_base_reachable(types: Seq<TypeView>, start: Seq<Seq<u8>>, name: Seq<u8>, base: Seq<u8>)
    requires
        spec_reachable(types, start, name),
        spec_bases_of(types, name).contains(base),
    ensures
        spec_reachable(types, start, base),
{
    let chain = choose|chain: Seq<Seq<u8>>| #[trigger] spec_base_chain(types, start, chain) && chain.last() == name;
    let longer = chain.push(base);
    assert forall|i: int| 0 <= i < longer.len() - 1 implies spec_bases_of(types, #[trigger] longer[i]).contains(longer[i + 1]) by {
        if i < chain.len() - 1 {
            assert(longer[i] == chain[i] && longer[i + 1] == chain[i + 1]);
        }
    }
    assert(longer[0] == chain[0]);
    assert(spec_base_chain(types, start, longer));
}

/// The state of the base search: every queued name lies in `universe` and
/// is reached from `start`; `start` is queued; the names before `head`
/// have been expanded; an expanded name has its bases queued and does not
/// declare `method` itself.
#[verifier::opaque]
pub open spec fn spec_search_state(
    types: Seq<TypeView>,
    start: Seq<Seq<u8>>,
    universe: Set<Seq<u8>>,
    queue: Seq<Seq<u8>>,
    head: int,
    seen: Set<Seq<u8>>,
    method: Seq<u8>,
) -> bool {
    &&& 0 <= head <= queue.len()
    &&& seen.subset_of(universe)
    &&& forall|i: int| 0 <= i < queue.len() ==> universe.contains(#[trigger] queue[i])
    &&& forall|i: int| 0 <= i < queue.len() ==> spec_reachable(types, start, #[trigger] queue[i])
    &&& forall|n: Seq<u8>| start.contains(n) ==> queue.contains(n)
    &&& forall|i: int| 0 <= i < head ==> seen.contains(#[trigger] queue[i])
    &&& forall|n: Seq<u8>| #[trigger] seen.contains(n) ==> queue.contains(n)
    &&& forall|n: Seq<u8>, b: Seq<u8>| #[trigger] seen.contains(n) && #[trigger] spec_bases_of(types, n).contains(b)
        ==> queue.contains(b)
    &&& forall|n: Seq<u8>| #[trigger] seen.contains(n) ==> !spec_declares_itself(types, n, method)
}

/// The names the search may ever queue: `start` and every recorded base.
pub open spec fn spec_universe(types: Seq<TypeView>, start: Seq<Seq<u8>>) -> Set<Seq<u8>> {
    (start + spec_all_bases(types)).to_set()
}

proof fn lemma_search_starts(types: Seq<TypeView>, start: Seq<Seq<u8>>, method: Seq<u8>)
    ensures
        spec_search_state(types, start, spec_universe(types, start), start, 0, Set::empty(), method),
        spec_universe(types, start).finite(),
{
    reveal(spec_search_state);
    let universe = spec_universe(types, start);
    vstd::seq_lib::seq_to_set_is_finite(start + spec_all_bases(types));
    assert forall|i: int| 0 <= i < start.len() implies universe.contains(#[trigger] start[i]) by {
        assert((start + spec_all_bases(types))[i] == start[i]);
    }
    assert forall|i: int| 0 <= i < start.len() implies spec_reachable(types, start, #[trigger] start[i]) by {
        let chain = seq![start[i]];
        assert(chain[0] == start[i]);
        assert(spec_base_chain(types, start, chain));
    }
}

proof fn lemma_search_skips(
    types: Seq<TypeView>,
    start: Seq<Seq<u8>>,
    universe: Set<Seq<u8>>,
    queue: Seq<Seq<u8>>,
    head: int,
    seen: Set<Seq<u8>>,
    method: Seq<u8>,
)
    requires
        spec_search_state(types, start, universe, queue, head, seen, method),
        head < queue.len(),
        seen.contains(queue[head]),
    ensures
        spec_search_state(types, start, universe, queue, head + 1, seen, method),
{
    reveal(spec_search_state);
}

proof fn lemma_search_expands(
    types: Seq<TypeView>,
    start: Seq<Seq<u8>>,
    universe: Set<Seq<u8>>,
    queue: Seq<Seq<u8>>,
    head: int,
    seen: Set<Seq<u8>>,
    method: Seq<u8>,
    grown: Seq<Seq<u8>>,
)
    requires
        spec_search_state(types, start, universe, queue, head, seen, method),
        universe == spec_universe(types, start),
        universe.finite(),
        head < queue.len(),
        !seen.contains(queue[head]),
        !spec_declares_itself(types, queue[head], method),
        grown == queue + spec_bases_of(types, queue[head]),
    ensures
        spec_search_state(types, start, universe, grown, head + 1, seen.insert(queue[head]), method),
        universe.difference(seen.insert(queue[head])).len() < universe.difference(seen).len(),
        spec_reachable(types, start, queue[head]),
{
    reveal(spec_search_state);
    let name = queue[head];
    let added = spec_bases_of(types, name);
    let next = seen.insert(name);
    assert(universe.contains(name));
    assert(universe.difference(next) =~= universe.difference(seen).remove(name));
    vstd::set_lib::lemma_set_subset_finite(universe, universe.difference(seen));
    assert(universe.difference(seen).contains(name));
    assert forall|i: int| 0 <= i < queue.len() implies #[trigger] grown[i] == queue[i] by {}
    assert forall|n: Seq<u8>| queue.contains(n) implies grown.contains(n) by {
        let j = choose|j: int| 0 <= j < queue.len() && queue[j] == n;
        assert(grown[j] == n);
    }
    assert forall|i: int| 0 <= i < grown.len() implies universe.contains(#[trigger] grown[i]) && spec_reachable(types, start, grown[i]) by {
        if i >= queue.len() {
            let b = added[i - queue.len()];
            assert(grown[i] == b);
            assert(added.contains(b));
            lemma_bases_recorded(types, name, b);
            let j = choose|j: int| 0 <= j < spec_all_bases(types).len() && spec_all_bases(types)[j] == b;
            assert((start + spec_all_bases(types))[start.len() + j] == b);
            lemma_base_reachable(types, start, name, b);
        } else {
            assert(grown[i] == queue[i]);
        }
    }
    assert forall|n: Seq<u8>, b: Seq<u8>| #[trigger] next.contains(n) && #[trigger] spec_bases_of(types, n).contains(b)
        implies grown.contains(b) by {
        if n == name {
            let k = choose|k: int| 0 <= k < added.len() && added[k] == b;
            assert(grown[queue.len() + k] == b);
        } else {
            assert(seen.contains(n));
            assert(queue.contains(b));
        }
    }
    assert forall|n: Seq<u8>| #[trigger] next.contains(n) implies grown.contains(n) by {
        if n == name {
            assert(grown[head] == name);
        } else {
            assert(seen.contains(n));
            assert(queue.contains(n));
        }
    }
    assert forall|i: int| 0 <= i < head + 1 implies next.contains(#[trigger] grown[i]) by {
        assert(grown[i] == queue[i]);
        if i < head {
            assert(seen.contains(queue[i]));
        }
    }
}

proof fn lemma_search_finds(
    types: Seq<TypeView>,
    start: Seq<Seq<u8>>,
    universe: Set<Seq<u8>>,
    queue: Seq<Seq<u8>>,
    head: int,
    seen: Set<Seq<u8>>,
    method: Seq<u8>,
)
    requires
        spec_search_state(types, start, universe, queue, head, seen, method),
        head < queue.len(),
        spec_declares_itself(types, queue[head], method),
    ensures
        spec_declares(types, start, method),
{
    reveal(spec_search_state);
    assert(spec_reachable(types, start, queue[head]));
}

proof fn lemma_search_ends(
    types: Seq<TypeView>,
    start: Seq<Seq<u8>>,
    universe: Set<Seq<u8>>,
    queue: Seq<Seq<u8>>,
    seen: Set<Seq<u8>>,
    method: Seq<u8>,
)
    requires
        spec_search_state(types, start, universe, queue, queue.len() as int, seen, method),
    ensures
        !spec_declares(types, start, method),
{
    reveal(spec_search_state);
    assert forall|n: Seq<u8>| queue.contains(n) implies seen.contains(n) by {
        let j = choose|j: int| 0 <= j < queue.len() && queue[j] == n;
        assert(seen.contains(queue[j]));
    }
    assert forall|name: Seq<u8>| #[trigger] spec_reachable(types, start, name) implies !spec_declares_itself(types, name, method) by {
        let chain = choose|chain: Seq<Seq<u8>>| #[trigger] spec_base_chain(types, start, chain) && chain.last() == name;
        lemma_closed_set_holds_chain(types, start, seen, chain, chain.len() - 1);
    }
}

impl ContractIndex {
    /// The facts recorded for `name`.
    pub fn facts_of(&self, name: &[u8]) -> (found: Option<&DeclaredType>)
        ensures
            match found {
                Some(entry) => spec_facts(types_view(self.types@), name@) == Some(entry@),
                None => spec_facts(types_view(self.types@), name@) is None,
            },
    {
        let ghost all = types_view(self.types@);
        let mut index: usize = 0;
        assert(all.skip(0) =~= all);
        while index < self.types.len()
            invariant
                index <= self.types@.len(),
                all == types_view(self.types@),
                all.len() == self.types@.len(),
                spec_facts(all, name@) == spec_facts(all.skip(index as int), name@),
            decreases self.types@.len() - index,
        {
            assert(all.skip(index as int).drop_first() =~= all.skip(index as int + 1));
            assert(all.skip(index as int)[0] == self.types@[index as int]@);
            if same_bytes(self.types[index].name.as_slice(), name) {
                return Some(&self.types[index]);
            }
            index = index + 1;
        }
        None
    }

    /// True when `method` is declared by any transitive base of `bases`.
    /// An unresolved base, declared outside the scanned corpus, contributes
    /// no proof. Each name is expanded once, so a cycle of bases ends.
    pub fn declares<'a>(&'a self, bases: &'a [Vec<u8>], method: &[u8]) -> (declared: bool)
        ensures
            declared == spec_declares(types_view(self.types@), byte_strings_view(bases@), method@),
    {
        let ghost types = types_view(self.types@);
        let ghost start = byte_strings_view(bases@);
        let ghost universe = spec_universe(types, start);
        let mut queue: Vec<&'a [u8]> = Vec::new();
        let mut index: usize = 0;
        while index < bases.len()
            invariant
                index <= bases@.len(),
                start == byte_strings_view(bases@),
                queue@.len() == index,
                slices_view(queue@) == start.take(index as int),
            decreases bases@.len() - index,
        {
            let ghost previous = queue@;
            queue.push(bases[index].as_slice());
            proof {
                assert(start.len() == bases@.len());
                assert(start[index as int] == bases@[index as int]@);
                assert(slices_view(queue@)[index as int] == bases@[index as int]@);
                assert forall|j: int| 0 <= j < index implies slices_view(queue@)[j] == slices_view(previous)[j] by {
                    assert(queue@[j] == previous[j]);
                }
            }
            assert(slices_view(queue@) =~= start.take(index as int + 1));
            index = index + 1;
        }
        assert(start.take(bases@.len() as int) =~= start);
        proof {
            lemma_search_starts(types, start, method@);
        }
        let mut seen: Vec<&'a [u8]> = Vec::new();
        let ghost mut seen_set: Set<Seq<u8>> = Set::empty();
        let mut head: usize = 0;
        while head < queue.len()
            invariant
                types == types_view(self.types@),
                start == byte_strings_view(bases@),
                universe == spec_universe(types, start),
                universe.finite(),
                head <= queue@.len(),
                forall|n: Seq<u8>| #[trigger] seen_set.contains(n) <==> slices_view(seen@).contains(n),
                spec_search_state(types, start, universe, slices_view(queue@), head as int, seen_set, method@),
            decreases universe.difference(seen_set).len(), queue@.len() - head,
        {
            let ghost before_queue = slices_view(queue@);
            let name = queue[head];
            assert(before_queue[head as int] == name@);
            if slice_listed(&seen, name) {
                proof {
                    lemma_search_skips(types, start, universe, before_queue, head as int, seen_set, method@);
                }
                head = head + 1;
                continue;
            }
            let ghost seen_before = slices_view(seen@);
            seen.push(name);
            proof {
                assert(slices_view(seen@) =~= seen_before.push(name@));
            }
            match self.facts_of(name) {
                None => {
                    assert(spec_bases_of(types, name@) =~= Seq::<Seq<u8>>::empty());
                    assert(before_queue + spec_bases_of(types, name@) =~= before_queue);
                },
                Some(entry) => {
                    if owned_listed(&entry.facts.members, method) {
                        proof {
                            lemma_search_finds(types, start, universe, before_queue, head as int, seen_set, method@);
                        }
                        return true;
                    }
                    push_names(&mut queue, &entry.facts.bases);
                },
            }
            proof {
                lemma_search_expands(types, start, universe, before_queue, head as int, seen_set, method@, slices_view(queue@));
                let old_set = seen_set;
                seen_set = seen_set.insert(name@);
                assert forall|n: Seq<u8>| #[trigger] seen_set.contains(n) <==> slices_view(seen@).contains(n) by {
                    if n == name@ {
                        assert(slices_view(seen@)[seen_before.len() as int] == n);
                    } else if old_set.contains(n) {
                        let j = choose|j: int| 0 <= j < seen_before.len() && seen_before[j] == n;
                        assert(slices_view(seen@)[j] == n);
                    } else if slices_view(seen@).contains(n) {
                        let j = choose|j: int| 0 <= j < slices_view(seen@).len() && slices_view(seen@)[j] == n;
                        assert(seen_before[j] == n);
                    }
                }
            }
            head = head + 1;
        }
        proof {
            assert(slices_view(queue@).len() == queue@.len());
            lemma_search_ends(types, start, universe, slices_view(queue@), seen_set, method@);
        }
        false
    }
}

/// Position of the first entry named `name`; the entry count when none is.
pub open spec fn spec_type_position(types: Seq<TypeView>, name: Seq<u8>) -> int
    decreases types.len(),
{
    if types.len() == 0 {
        0
    } else if types[0].name == name {
        0
    } else {
        1 + spec_type_position(types.drop_first(), name)
    }
}

/// The index after merging one declarer: a declarer without a name adds
/// nothing; otherwise its bases and members join the entry of its name,
/// which is made where there is none.
pub open spec fn spec_record(types: Seq<TypeView>, declarer: SyntaxNode, source: Seq<u8>, language: Seq<char>) -> Seq<TypeView> {
    match spec_declared_type_name(declarer, source) {
        None => types,
        Some(name) => {
            let bases = spec_declared_bases(declarer, source);
            let members = spec_member_names(declarer, source, spec_function_kinds(language), true);
            let position = spec_type_position(types, name);
            if position < types.len() {
                types.update(position, TypeView {
                    name: types[position].name,
                    bases: types[position].bases + bases,
                    members: types[position].members + members,
                })
            } else {
                types.push(TypeView { name, bases, members })
            }
        },
    }
}

/// The index after recording every declarer of `node`'s subtree, the node
/// first and then its named children in order.
pub open spec fn spec_index_tree(types: Seq<TypeView>, node: SyntaxNode, source: Seq<u8>, language: Seq<char>) -> Seq<TypeView>
    decreases node, 1int,
{
    let here = if spec_is_declarer(node.kind@) { spec_record(types, node, source, language) } else { types };
    spec_index_children(here, node.children@, node.children@.len() as int, source, language)
}

/// The index after recording the declarers under the first `k` named
/// children.
pub open spec fn spec_index_children(types: Seq<TypeView>, children: Seq<SyntaxNode>, k: int, source: Seq<u8>, language: Seq<char>) -> Seq<TypeView>
    decreases children, k,
{
    if k <= 0 || k > children.len() {
        types
    } else {
        let before = spec_index_children(types, children, k - 1, source, language);
        if children[k - 1].named { spec_index_tree(before, children[k - 1], source, language) } else { before }
    }
}

/// The index over the first `k` files written in `language`, each parsed
/// with that language's grammar; a file that gives no tree adds nothing.
pub open spec fn spec_build(sources: Seq<SourceFile>, languages: Seq<FileLanguage>, language: Seq<char>, k: int) -> Seq<TypeView>
    decreases k,
{
    if k <= 0 || k > sources.len() {
        seq![]
    } else {
        let before = spec_build(sources, languages, language, k - 1);
        if spec_language_of(languages, sources[k - 1].file_id) == Some(language) {
            match spec_plugin_parse(language, sources[k - 1].bytes@) {
                Some(tree) => spec_index_tree(before, tree, sources[k - 1].bytes@, language),
                None => before,
            }
        } else {
            before
        }
    }
}

impl ContractIndex {
    /// Position of the first entry named `name`.
    fn position_of(&self, name: &[u8]) -> (position: usize)
        ensures
            position == spec_type_position(types_view(self.types@), name@),
            position <= self.types@.len(),
    {
        let ghost all = types_view(self.types@);
        let mut index: usize = 0;
        assert(all.skip(0) =~= all);
        while index < self.types.len()
            invariant
                index <= self.types@.len(),
                all == types_view(self.types@),
                all.len() == self.types@.len(),
                spec_type_position(all, name@) == index + spec_type_position(all.skip(index as int), name@),
            decreases self.types@.len() - index,
        {
            assert(all.skip(index as int).drop_first() =~= all.skip(index as int + 1));
            assert(all.skip(index as int)[0] == self.types@[index as int]@);
            if same_bytes(self.types[index].name.as_slice(), name) {
                return index;
            }
            index = index + 1;
        }
        index
    }

    /// Merges one declarer's bases and member names into the index.
    pub fn record(&mut self, declarer: &SyntaxNode, source: &[u8], language: &str)
        ensures
            types_view(final(self).types@) == spec_record(types_view(old(self).types@), *declarer, source@, language@),
    {
        let name = match declared_type_name(declarer, source) {
            Some(name) => name,
            None => return,
        };
        let mut bases = declared_bases(declarer, source);
        let mut members = member_names(declarer, source, language);
        let ghost before = types_view(self.types@);
        let ghost added_bases = byte_strings_view(bases@);
        let ghost added_members = byte_strings_view(members@);
        let position = self.position_of(name);
        if position < self.types.len() {
            let mut entry = DeclaredType { name: Vec::new(), facts: TypeFacts { bases: Vec::new(), members: Vec::new() } };
            self.types.set_and_swap(position, &mut entry);
            let ghost taken = entry@;
            assert(taken == before[position as int]);
            entry.facts.bases.append(&mut bases);
            entry.facts.members.append(&mut members);
            assert(byte_strings_view(entry.facts.bases@) =~= taken.bases + added_bases);
            assert(byte_strings_view(entry.facts.members@) =~= taken.members + added_members);
            self.types.set_and_swap(position, &mut entry);
            assert(types_view(self.types@) =~= before.update(position as int, TypeView {
                name: before[position as int].name,
                bases: before[position as int].bases + added_bases,
                members: before[position as int].members + added_members,
            }));
        } else {
            let mut owned: Vec<u8> = Vec::new();
            owned.extend_from_slice(name);
            assert(owned@ =~= name@);
            let fresh = DeclaredType { name: owned, facts: TypeFacts { bases, members } };
            assert(fresh@ == TypeView { name: name@, bases: added_bases, members: added_members });
            self.types.push(fresh);
            assert(types_view(self.types@)[before.len() as int] == fresh@);
            assert(types_view(self.types@) =~= before.push(TypeView { name: name@, bases: added_bases, members: added_members }));
        }
    }

    /// Records every declarer in one file's tree.
    pub fn index_tree(&mut self, node: &SyntaxNode, source: &[u8], language: &str)
        ensures
            types_view(final(self).types@) == spec_index_tree(types_view(old(self).types@), *node, source@, language@),
        decreases *node,
    {
        if is_declarer(node.kind.as_str()) {
            self.record(node, source, language);
        }
        let ghost here = types_view(self.types@);
        let mut index: usize = 0;
        while index < node.children.len()
            invariant
                index <= node.children@.len(),
                types_view(self.types@) == spec_index_children(here, node.children@, index as int, source@, language@),
            decreases node.children@.len() - index,
        {
            let child = &node.children[index];
            assert(decreases_to!(*node => node.children@[index as int]));
            if child.named {
                self.index_tree(child, source, language);
            }
            index = index + 1;
        }
    }

    /// Indexes every file written in `language`. Files in other languages
    /// are skipped: a Python `Sink` and a C# `Sink` are unrelated contracts.
    pub fn build(sources: &[SourceFile], languages: &[FileLanguage], language: &str) -> (index: ContractIndex)
        ensures
            types_view(index.types@) == spec_build(sources@, languages@, language@, sources@.len() as int),
    {
        let mut index = ContractIndex { types: Vec::new() };
        assert(types_view(index.types@) =~= Seq::<TypeView>::empty());
        let mut k: usize = 0;
        while k < sources.len()
            invariant
                k <= sources@.len(),
                types_view(index.types@) == spec_build(sources@, languages@, language@, k as int),
            decreases sources@.len() - k,
        {
            let file = &sources[k];
            let same_language = match language_for(languages, file.file_id) {
                Some(found) => same_text(found, language),
                None => false,
            };
            if same_language {
                match parse_with_plugin(language, file.bytes.as_slice()) {
                    Some(tree) => index.index_tree(&tree, file.bytes.as_slice(), language),
                    None => {},
                }
            }
            k = k + 1;
        }
        index
    }
}

} // verus!
