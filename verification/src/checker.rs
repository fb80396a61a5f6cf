use vstd::prelude::*;

use crate::certificate::{node_id, node_id_spec, proof_digest, proof_digest_spec, temporal_of, temporal_view, Proof, ProofNode, ProofNodeKind};
use crate::collections::{all_distinct, strictly_sorted, StrSet};
use crate::engine::{atom_views, bindings_view, instantiate, instantiate_spec, match_atom, match_chain, no_bindings};
use crate::error::ReasonError;
use crate::model::{atom_eq, AtomV, Atom, Fact, Program, Rule};
use crate::program::{is_v2, program_valid};
use crate::reasoning::{fact_justifies, fact_supports, node_ids, rule_justifies, rule_yields};
use crate::report::{admits, authority_admits, fact_ids};
use crate::temporal::{eligible, TemporalReport};
use crate::text::{push_debug, push_str, str_eq, str_lt, string_from_chars, strings_contain, strings_view};

verus! {

/// The node with id `id` in a proof whose node ids are distinct.
pub open spec fn node_at(nodes: Seq<ProofNode>, id: Seq<char>) -> ProofNode {
    nodes[node_ids(nodes).index_of(id)]
}

/// The atoms of the nodes with the given ids.
pub open spec fn premise_node_atoms(nodes: Seq<ProofNode>, premises: Seq<String>) -> Seq<AtomV> {
    premises.map_values(|x: String| node_at(nodes, x@).atom@)
}

/// A node as the verifier accepts it: its id is the digest of its atom; a
/// fact node is supported by a fact; a derivation node's premises are nodes
/// of the proof, whose atoms its rule turns into the node's atom.
pub open spec fn node_checked(p: &Program, nodes: Seq<ProofNode>, n: ProofNode) -> bool {
    &&& n.id@ == node_id_spec(n.atom@)
    &&& match n.kind {
        ProofNodeKind::Fact => {
            &&& n.premises@.len() == 0
            &&& n.source_id is Some
            &&& n.authority is Some
            &&& fact_justifies(p, n.source_id->0@, n.atom@, n.authority->0@, n.temporal)
        },
        ProofNodeKind::Derivation => {
            &&& n.temporal is None
            &&& n.authority is None
            &&& n.source_id is Some
            &&& forall|m: int| 0 <= m < n.premises@.len() ==> node_ids(nodes).contains(#[trigger] n.premises@[m]@)
            &&& rule_justifies(p, n.source_id->0@, premise_node_atoms(nodes, n.premises@), n.atom@)
        },
    }
}

/// A proof the verifier accepts for `expected`: the digest matches, node ids
/// ascend strictly, the root node concludes exactly `expected`, and every
/// node is checked.
pub open spec fn proof_verified(p: &Program, proof: &Proof, expected: AtomV) -> bool {
    let nodes = proof.nodes@;
    &&& proof.digest@ == proof_digest_spec(proof.root@, nodes)
    &&& strictly_sorted(node_ids(nodes))
    &&& node_ids(nodes).contains(proof.root@)
    &&& node_at(nodes, proof.root@).atom@ == expected
    &&& forall|k: int| 0 <= k < nodes.len() ==> node_checked(p, nodes, #[trigger] nodes[k])
}

/// Node `y` is a premise of the node with id `x`.
pub open spec fn premise_link(nodes: Seq<ProofNode>, x: Seq<char>, y: Seq<char>) -> bool {
    exists|m: int| 0 <= m < node_at(nodes, x).premises@.len() && #[trigger] node_at(nodes, x).premises@[m]@ == y
}

/// A chain of premise links leads from the node `root` to the node `x`.
pub open spec fn reachable(nodes: Seq<ProofNode>, root: Seq<char>, x: Seq<char>) -> bool {
    exists|path: Seq<Seq<char>>|
        path.len() > 0 && path[0] == root && #[trigger] path.last() == x && forall|i: int|
            0 <= i < path.len() - 1 ==> premise_link(nodes, #[trigger] path[i], path[i + 1])
}

/// `order` lists node ids without repetition, each node after all of its premises.
pub open spec fn premises_first(nodes: Seq<ProofNode>, order: Seq<Seq<char>>) -> bool {
    &&& order.no_duplicates()
    &&& forall|a: int, m: int|
        #![trigger node_at(nodes, order[a]).premises@[m]]
        0 <= a < order.len() && 0 <= m < node_at(nodes, order[a]).premises@.len() ==> order.take(a).contains(
            node_at(nodes, order[a]).premises@[m]@,
        )
}

/// The proof is a DAG hanging from its root: some order of all its nodes
/// lists every premise before the node it supports (so no derivation is
/// cyclic), and every node is reachable from the root.
pub open spec fn proof_dag(nodes: Seq<ProofNode>, root: Seq<char>) -> bool {
    &&& exists|order: Seq<Seq<char>>|
        premises_first(nodes, order) && forall|k: int| 0 <= k < nodes.len() ==> order.contains(#[trigger] nodes[k].id@)
    &&& forall|k: int| 0 <= k < nodes.len() ==> reachable(nodes, root, #[trigger] nodes[k].id@)
}

/// Every proof and disproof of a result is a DAG hanging from its root.
pub open spec fn result_dags(r: &crate::reasoning::CheckResult) -> bool {
    &&& (r.proof matches Some(p) ==> proof_dag(p.nodes@, p.root@))
    &&& (r.disproof matches Some(d) ==> proof_dag(d.nodes@, d.root@))
}

/// A premise of a reachable node is reachable.
proof fn lemma_reach_step(nodes: Seq<ProofNode>, root: Seq<char>, x: Seq<char>, y: Seq<char>)
    requires
        reachable(nodes, root, x),
        premise_link(nodes, x, y),
    ensures
        reachable(nodes, root, y),
{
    let path = choose|path: Seq<Seq<char>>|
        path.len() > 0 && path[0] == root && #[trigger] path.last() == x && forall|i: int|
            0 <= i < path.len() - 1 ==> premise_link(nodes, #[trigger] path[i], path[i + 1]);
    let p2 = path.push(y);
    assert forall|i: int| 0 <= i < p2.len() - 1 implies premise_link(nodes, #[trigger] p2[i], p2[i + 1]) by {
        if i < path.len() - 1 {
            assert(p2[i] == path[i] && p2[i + 1] == path[i + 1]);
        } else {
            assert(p2[i] == x && p2[i + 1] == y);
        }
    }
    assert(p2.last() == y);
}

/// Appending a node whose premises are all listed keeps the order premises-first.
proof fn lemma_premises_first_push(nodes: Seq<ProofNode>, order: Seq<Seq<char>>, x: Seq<char>)
    requires
        premises_first(nodes, order),
        !order.contains(x),
        forall|m: int| 0 <= m < node_at(nodes, x).premises@.len() ==> order.contains(#[trigger] node_at(nodes, x).premises@[m]@),
    ensures
        premises_first(nodes, order.push(x)),
{
    let o2 = order.push(x);
    assert forall|a: int, m: int|
        #![trigger node_at(nodes, o2[a]).premises@[m]]
        0 <= a < o2.len() && 0 <= m < node_at(nodes, o2[a]).premises@.len() implies o2.take(a).contains(
            node_at(nodes, o2[a]).premises@[m]@,
        ) by {
        if a < order.len() {
            assert(o2[a] == order[a]);
            assert(o2.take(a) =~= order.take(a));
            assert(order.take(a).contains(node_at(nodes, order[a]).premises@[m]@));
        } else {
            assert(o2.take(a) =~= order);
            assert(o2[a] == x);
        }
    }
}

fn invalid(out: Vec<char>) -> (e: ReasonError)
    ensures
        e matches ReasonError::InvalidProof(m) && m@ == out@,
{
    ReasonError::InvalidProof(string_from_chars(out.as_slice()))
}

fn node_message(id: &str, rest: &str) -> (e: ReasonError)
    ensures
        e is InvalidProof,
{
    let mut out: Vec<char> = Vec::new();
    push_str(&mut out, "proof node ");
    push_debug(&mut out, id);
    push_str(&mut out, rest);
    invalid(out)
}

fn node_source_message(id: &str, rest: &str, source: &str, tail: &str) -> (e: ReasonError)
    ensures
        e matches ReasonError::InvalidProof(m) && m@ == "proof node "@ + crate::text::debug_text(id@) + rest@ + crate::text::debug_text(source@) + tail@,
{
    let mut out: Vec<char> = Vec::new();
    push_str(&mut out, "proof node ");
    push_debug(&mut out, id);
    push_str(&mut out, rest);
    push_debug(&mut out, source);
    push_str(&mut out, tail);
    proof {
        reveal_strlit("proof node ");
    }
    assert(out@ == "proof node "@ + crate::text::debug_text(id@) + rest@ + crate::text::debug_text(source@) + tail@);
    invalid(out)
}

/// The position of the node with id `id`, if any.
fn find_node(nodes: &Vec<ProofNode>, id: &str) -> (r: Option<usize>)
    requires
        strictly_sorted(node_ids(nodes@)),
    ensures
        r is Some <==> node_ids(nodes@).contains(id@),
        r matches Some(k) ==> k < nodes@.len() && nodes@[k as int].id@ == id@ && node_at(nodes@, id@) == nodes@[k as int],
{
    let mut k: usize = 0;
    while k < nodes.len()
        invariant
            strictly_sorted(node_ids(nodes@)),
            k <= nodes@.len(),
            forall|j: int| 0 <= j < k ==> nodes@[j].id@ != id@,
        decreases nodes.len() - k,
    {
        if str_eq(nodes[k].id.as_str(), id) {
            proof {
                assert(node_ids(nodes@)[k as int] == id@);
                crate::collections::lemma_sorted_index_of(node_ids(nodes@), k as int);
            }
            return Some(k);
        }
        k += 1;
    }
    proof {
        if node_ids(nodes@).contains(id@) {
            let j = choose|j: int| 0 <= j < node_ids(nodes@).len() && node_ids(nodes@)[j] == id@;
            assert(node_ids(nodes@)[j] == nodes@[j].id@);
        }
    }
    None
}

/// The position of the fact with id `id`, if any.
fn find_fact(program: &Program, id: &str) -> (r: Option<usize>)
    ensures
        r is Some <==> exists|i: int| 0 <= i < program.facts@.len() && #[trigger] program.facts@[i].id@ == id@,
        r matches Some(i) ==> i < program.facts@.len() && program.facts@[i as int].id@ == id@,
{
    let mut i: usize = 0;
    while i < program.facts.len()
        invariant
            i <= program.facts@.len(),
            forall|j: int| 0 <= j < i ==> program.facts@[j].id@ != id@,
        decreases program.facts.len() - i,
    {
        if str_eq(program.facts[i].id.as_str(), id) {
            return Some(i);
        }
        i += 1;
    }
    None
}

/// The position of the rule with id `id`, if any.
fn find_rule(program: &Program, id: &str) -> (r: Option<usize>)
    ensures
        r is Some <==> exists|j: int| 0 <= j < program.rules@.len() && #[trigger] program.rules@[j].id@ == id@,
        r matches Some(j) ==> j < program.rules@.len() && program.rules@[j as int].id@ == id@,
{
    let mut j: usize = 0;
    while j < program.rules.len()
        invariant
            j <= program.rules@.len(),
            forall|k: int| 0 <= k < j ==> program.rules@[k].id@ != id@,
        decreases program.rules.len() - j,
    {
        if str_eq(program.rules[j].id.as_str(), id) {
            return Some(j);
        }
        j += 1;
    }
    None
}

/// The facts have distinct ids, and the temporal report, present exactly in
/// v2, is the program's.
pub open spec fn context_ok(p: &Program, temporal: &Option<TemporalReport>) -> bool {
    &&& all_distinct(fact_ids(p.facts@))
    &&& (temporal is Some <==> is_v2(p))
    &&& (temporal matches Some(t) ==> crate::temporal::temporal_report_ok(p, p.evaluation_time->0@, &t))
}

/// The refusal of a fact node whose authority is not that of its fact.
pub open spec fn authority_mismatch_message(n: ProofNode) -> Seq<char> {
    "proof node "@ + crate::text::debug_text(n.id@) + ": authority does not match fact "@ + crate::text::debug_text(n.source_id->0@)
}

/// A fact node with the right id, no premises, and the atom of the fact it
/// names, but not that fact's authority.
pub open spec fn authority_mismatch(p: &Program, n: ProofNode) -> bool {
    &&& n.id@ == node_id_spec(n.atom@)
    &&& n.kind == ProofNodeKind::Fact
    &&& n.premises@.len() == 0
    &&& n.source_id is Some
    &&& exists|i: int|
        0 <= i < p.facts@.len() && #[trigger] p.facts@[i].id@ == n.source_id->0@ && p.facts@[i].atom@ == n.atom@ && (
        n.authority is None || n.authority->0@ != p.facts@[i].authority@)
}

/// Checks a fact node against the fact it names.
fn check_fact_node(program: &Program, temporal: &Option<TemporalReport>, node: &ProofNode) -> (r: Result<(), ReasonError>)
    requires
        context_ok(program, temporal),
        node.kind == ProofNodeKind::Fact,
    ensures
        r is Ok ==> node.premises@.len() == 0 && node.source_id is Some && node.authority is Some && fact_justifies(
            program,
            node.source_id->0@,
            node.atom@,
            node.authority->0@,
            node.temporal,
        ),
        r matches Err(e) ==> e is InvalidProof,
        node.premises@.len() == 0 && node.source_id is Some && node.authority is Some && fact_justifies(
            program,
            node.source_id->0@,
            node.atom@,
            node.authority->0@,
            node.temporal,
        ) ==> r is Ok,
        authority_mismatch(program, *node) ==> (r matches Err(ReasonError::InvalidProof(m)) && m@ == authority_mismatch_message(*node)),
{
    let ghost justified = node.premises@.len() == 0 && node.source_id is Some && node.authority is Some && fact_justifies(
        program,
        node.source_id->0@,
        node.atom@,
        node.authority->0@,
        node.temporal,
    );
    if node.premises.len() > 0 {
        return Err(node_message(node.id.as_str(), ": a fact cannot have premises"));
    }
    let source_id = match &node.source_id {
        Some(s) => s,
        None => {
            return Err(node_message(node.id.as_str(), ": missing fact source_id"));
        },
    };
    let i = match find_fact(program, source_id.as_str()) {
        Some(i) => i,
        None => {
            return Err(node_source_message(node.id.as_str(), ": fact source ", source_id.as_str(), " does not exist"));
        },
    };
    let fact = &program.facts[i];
    proof {
        if justified {
            let i2 = choose|i2: int|
                0 <= i2 < program.facts@.len() && #[trigger] program.facts@[i2].id@ == node.source_id->0@ && fact_supports(
                    program,
                    program.facts@[i2],
                    node.atom@,
                    node.authority->0@,
                    node.temporal,
                );
            assert(fact_ids(program.facts@)[i2] == program.facts@[i2].id@);
            assert(fact_ids(program.facts@)[i as int] == program.facts@[i as int].id@);
            assert(i2 == i);
            crate::reasoning::lemma_report_eligible_opt(program, temporal, i as int);
        }
    }
    proof {
        if authority_mismatch(program, *node) {
            let i2 = choose|i2: int|
                0 <= i2 < program.facts@.len() && #[trigger] program.facts@[i2].id@ == node.source_id->0@ && program.facts@[i2].atom@
                    == node.atom@ && (node.authority is None || node.authority->0@ != program.facts@[i2].authority@);
            assert(fact_ids(program.facts@)[i2] == program.facts@[i2].id@);
            assert(fact_ids(program.facts@)[i as int] == program.facts@[i as int].id@);
            assert(i2 == i);
        }
    }
    if !atom_eq(&node.atom, &fact.atom) {
        return Err(node_source_message(node.id.as_str(), ": atom does not match fact ", source_id.as_str(), ""));
    }
    let same_authority = match &node.authority {
        Some(a) => str_eq(a.as_str(), fact.authority.as_str()),
        None => false,
    };
    if !same_authority {
        let e = node_source_message(node.id.as_str(), ": authority does not match fact ", source_id.as_str(), "");
        proof {
            reveal_strlit("");
            assert(""@ =~= Seq::<char>::empty());
        }
        return Err(e);
    }
    if !authority_admits(&program.authority, fact) {
        return Err(node_source_message(node.id.as_str(), ": fact ", source_id.as_str(), " is withheld by the authority policy"));
    }
    match temporal {
        Some(report) => {
            proof { crate::reasoning::lemma_report_eligible(program, report, i as int); }
            if !strings_contain(&report.eligible_fact_ids, source_id.as_str()) {
                return Err(node_source_message(node.id.as_str(), ": fact ", source_id.as_str(), " is temporally ineligible"));
            }
        },
        None => {},
    }
    let expected = crate::certificate::fact_temporal(program, fact);
    if !crate::compare::temporal_eq(&node.temporal, &expected) {
        return Err(node_source_message(node.id.as_str(), ": temporal certificate does not match fact ", source_id.as_str(), ""));
    }
    proof {
        assert(fact_supports(program, program.facts@[i as int], node.atom@, node.authority->0@, node.temporal));
    }
    Ok(())
}


/// Every node of the proof is checked.
pub open spec fn all_checked(p: &Program, nodes: Seq<ProofNode>) -> bool {
    forall|k: int| 0 <= k < nodes.len() ==> node_checked(p, nodes, #[trigger] nodes[k])
}

/// A depth-first walk from `id` fails at most at the node `bad`: every other
/// node is checked, `bad` (if any) is a node whose authority is not that of
/// its fact, the rule ids are distinct, `ord` lists every node after its
/// premises, `id` is a node, and every node on the current path comes after
/// `id` in `ord`.
pub open spec fn walk_clear(
    p: &Program,
    nodes: Seq<ProofNode>,
    ord: Seq<Seq<char>>,
    path: Seq<String>,
    id: Seq<char>,
    bad: Option<Seq<char>>,
) -> bool {
    &&& forall|k: int| 0 <= k < nodes.len() && bad != Some(nodes[k].id@) ==> node_checked(p, nodes, #[trigger] nodes[k])
    &&& (bad matches Some(b) ==> node_ids(nodes).contains(b) && authority_mismatch(p, node_at(nodes, b)))
    &&& all_distinct(crate::reasoning::rule_ids(p.rules@))
    &&& premises_first(nodes, ord)
    &&& (forall|k: int| 0 <= k < nodes.len() ==> ord.contains(#[trigger] nodes[k].id@))
    &&& node_ids(nodes).contains(id)
    &&& forall|k: int| 0 <= k < path.len() ==> ord.index_of(#[trigger] path[k]@) > ord.index_of(id)
}

proof fn lemma_index_of_unique(s: Seq<Seq<char>>, i: int)
    requires
        s.no_duplicates(),
        0 <= i < s.len(),
    ensures
        s.index_of(s[i]) == i,
{
    assert(s[i] == s[i]);
    let j = s.index_of(s[i]);
    assert(0 <= j < s.len() && s[j] == s[i]);
}

/// In a premises-first order, each premise of a node comes before it.
proof fn lemma_premise_earlier(nodes: Seq<ProofNode>, ord: Seq<Seq<char>>, x: Seq<char>, m: int)
    requires
        premises_first(nodes, ord),
        ord.contains(x),
        0 <= m < node_at(nodes, x).premises@.len(),
    ensures
        ord.contains(node_at(nodes, x).premises@[m]@),
        ord.index_of(node_at(nodes, x).premises@[m]@) < ord.index_of(x),
{
    let a = ord.index_of(x);
    assert(0 <= a < ord.len() && ord[a] == x);
    let y = node_at(nodes, ord[a]).premises@[m]@;
    assert(ord.take(a).contains(y));
    let i = choose|i: int| 0 <= i < ord.take(a).len() && ord.take(a)[i] == y;
    assert(ord[i] == y);
    lemma_index_of_unique(ord, i);
}

/// Following a premise link from `x` to `y` and then a chain from `y` to
/// `z` is a chain from `x` to `z`.
proof fn lemma_reach_prepend(nodes: Seq<ProofNode>, x: Seq<char>, y: Seq<char>, z: Seq<char>)
    requires
        premise_link(nodes, x, y),
        reachable(nodes, y, z),
    ensures
        reachable(nodes, x, z),
{
    let path = choose|path: Seq<Seq<char>>|
        path.len() > 0 && path[0] == y && #[trigger] path.last() == z && forall|i: int|
            0 <= i < path.len() - 1 ==> premise_link(nodes, #[trigger] path[i], path[i + 1]);
    let p2 = seq![x] + path;
    assert forall|i: int| 0 <= i < p2.len() - 1 implies premise_link(nodes, #[trigger] p2[i], p2[i + 1]) by {
        if i == 0 {
            assert(p2[0] == x && p2[1] == y);
        } else {
            assert(p2[i] == path[i - 1] && p2[i + 1] == path[i]);
        }
    }
    assert(p2.last() == z);
}

/// Every node reaches itself.
proof fn lemma_reach_self(nodes: Seq<ProofNode>, x: Seq<char>)
    ensures
        reachable(nodes, x, x),
{
    let p = seq![x];
    assert(p.last() == x);
}

/// The ids listed in a premises-first order that holds `x` hold every node
/// reachable from `x`.
proof fn lemma_order_reach(nodes: Seq<ProofNode>, order: Seq<Seq<char>>, x: Seq<char>, y: Seq<char>)
    requires
        premises_first(nodes, order),
        order.contains(x),
        reachable(nodes, x, y),
    ensures
        order.contains(y),
{
    let set = order.to_set();
    assert forall|z: Seq<char>, m: int|
        set.contains(z) && 0 <= m < node_at(nodes, z).premises@.len() implies set.contains(
            #[trigger] node_at(nodes, z).premises@[m]@,
        ) by {
        let a = choose|a: int| 0 <= a < order.len() && order[a] == z;
        assert(order.take(a).contains(node_at(nodes, order[a]).premises@[m]@));
        let b = choose|b: int| 0 <= b < order.take(a).len() && order.take(a)[b] == node_at(nodes, z).premises@[m]@;
        assert(order[b] == order.take(a)[b]);
    }
    lemma_reach_closed(nodes, x, set, y);
}

/// Along a chain of premise links, positions in a premises-first order that
/// holds the chain's start only go down.
proof fn lemma_order_descends(nodes: Seq<ProofNode>, order: Seq<Seq<char>>, path: Seq<Seq<char>>, i: int)
    requires
        premises_first(nodes, order),
        order.contains(path[0]),
        0 <= i < path.len(),
        forall|k: int| 0 <= k < path.len() - 1 ==> premise_link(nodes, #[trigger] path[k], path[k + 1]),
    ensures
        order.contains(path[i]),
        order.index_of(path[i]) <= order.index_of(path[0]),
    decreases i,
{
    if i > 0 {
        lemma_order_descends(nodes, order, path, i - 1);
        assert(premise_link(nodes, path[i - 1], path[i]));
        let m = choose|m: int| 0 <= m < node_at(nodes, path[i - 1]).premises@.len() && #[trigger] node_at(nodes, path[i - 1]).premises@[m]@ == path[i];
        lemma_premise_earlier(nodes, order, path[i - 1], m);
    }
}

/// A node listed in a premises-first order lies on no derivation cycle: no
/// premise of it leads back to it.
proof fn lemma_no_cycle_through(nodes: Seq<ProofNode>, order: Seq<Seq<char>>, x: Seq<char>)
    requires
        premises_first(nodes, order),
        order.contains(x),
    ensures
        forall|y: Seq<char>| #[trigger] premise_link(nodes, x, y) ==> !reachable(nodes, y, x),
{
    assert forall|y: Seq<char>| #[trigger] premise_link(nodes, x, y) implies !reachable(nodes, y, x) by {
        if reachable(nodes, y, x) {
            let m = choose|m: int| 0 <= m < node_at(nodes, x).premises@.len() && #[trigger] node_at(nodes, x).premises@[m]@ == y;
            lemma_premise_earlier(nodes, order, x, m);
            let path = choose|path: Seq<Seq<char>>|
                path.len() > 0 && path[0] == y && #[trigger] path.last() == x && forall|i: int|
                    0 <= i < path.len() - 1 ==> premise_link(nodes, #[trigger] path[i], path[i + 1]);
            lemma_order_descends(nodes, order, path, path.len() - 1);
        }
    }
}

/// Verifies the node with id `id` and, first, its premises, depth first;
/// `visiting` holds the ids on the current path, `verified` those done.
#[verifier::rlimit(100)]
#[verifier::spinoff_prover]
fn verify_node(
    program: &Program,
    temporal: &Option<TemporalReport>,
    nodes: &Vec<ProofNode>,
    id: &String,
    visiting: &mut Vec<String>,
    verified: &mut StrSet,
    order: &mut Vec<String>,
    Ghost(root): Ghost<Seq<char>>,
    Ghost(ord): Ghost<Seq<Seq<char>>>,
    Ghost(bad): Ghost<Option<Seq<char>>>,
) -> (r: Result<(), ReasonError>)
    requires
        context_ok(program, temporal),
        strictly_sorted(node_ids(nodes@)),
        strings_view(old(visiting)@).no_duplicates(),
        forall|k: int| 0 <= k < old(visiting)@.len() ==> node_ids(nodes@).contains(#[trigger] old(visiting)@[k]@),
        forall|x: Seq<char>| #[trigger] old(verified).has(x) ==> node_ids(nodes@).contains(x) && node_checked(
            program,
            nodes@,
            node_at(nodes@, x),
        ),
        forall|x: Seq<char>| #[trigger] old(verified).has(x) <==> strings_view(old(order)@).contains(x),
        premises_first(nodes@, strings_view(old(order)@)),
        forall|x: Seq<char>| #[trigger] old(verified).has(x) ==> reachable(nodes@, root, x),
        reachable(nodes@, root, id@),
    ensures
        r matches Err(e) ==> e is InvalidProof,
        r is Ok ==> forall|x: Seq<char>| #[trigger] final(verified).has(x) <==> strings_view(final(order)@).contains(x),
        r is Ok ==> premises_first(nodes@, strings_view(final(order)@)),
        r is Ok ==> forall|x: Seq<char>| #[trigger] final(verified).has(x) ==> reachable(nodes@, root, x),
        r is Ok ==> forall|x: Seq<char>| strings_view(old(visiting)@).contains(x) ==> (#[trigger] final(verified).has(x) == old(verified).has(x)),
        r is Ok ==> final(verified).has(id@) && node_ids(nodes@).contains(id@),
        r is Ok ==> forall|x: Seq<char>| #[trigger] old(verified).has(x) ==> final(verified).has(x),
        r is Ok ==> forall|x: Seq<char>| #[trigger] final(verified).has(x) ==> node_ids(nodes@).contains(x) && node_checked(
            program,
            nodes@,
            node_at(nodes@, x),
        ),
        r is Ok ==> final(visiting)@ == old(visiting)@,
        r is Ok ==> forall|x: Seq<char>|
            #![trigger final(verified).has(x)]
            #![trigger reachable(nodes@, id@, x)]
            final(verified).has(x) <==> (old(verified).has(x) || reachable(nodes@, id@, x)),
        r is Ok ==> forall|y: Seq<char>| #[trigger] premise_link(nodes@, id@, y) ==> !reachable(nodes@, y, id@),
        walk_clear(program, nodes@, ord, old(visiting)@, id@, bad) ==> (r is Ok || (bad is Some && (r matches Err(
            ReasonError::InvalidProof(m),
        ) && m@ == authority_mismatch_message(node_at(nodes@, bad->0))))),
    decreases nodes@.len() - old(visiting)@.len(),
{
    let ghost clear = walk_clear(program, nodes@, ord, visiting@, id@, bad);
    if verified.contains(id.as_str()) {
        proof {
            assert forall|x: Seq<char>| reachable(nodes@, id@, x) implies #[trigger] verified.has(x) by {
                lemma_order_reach(nodes@, strings_view(order@), id@, x);
            }
            lemma_no_cycle_through(nodes@, strings_view(order@), id@);
        }
        return Ok(());
    }
    proof {
        if clear && strings_view(visiting@).contains(id@) {
            let i = choose|i: int| 0 <= i < strings_view(visiting@).len() && strings_view(visiting@)[i] == id@;
            assert(visiting@[i]@ == id@);
        }
    }
    if strings_contain(visiting, id.as_str()) {
        let mut out: Vec<char> = Vec::new();
        push_str(&mut out, "$.proof.nodes[");
        push_str(&mut out, id.as_str());
        push_str(&mut out, "]: derivation cycle detected");
        return Err(invalid(out));
    }
    let ghost visiting0 = visiting@;
    let ghost verified0 = *verified;
    visiting.push(id.clone());
    let k = match find_node(nodes, id.as_str()) {
        Some(k) => k,
        None => {
            let mut out: Vec<char> = Vec::new();
            push_str(&mut out, "proof node ");
            push_debug(&mut out, id.as_str());
            push_str(&mut out, " does not exist");
            return Err(invalid(out));
        },
    };
    proof {
        let sv = strings_view(visiting@);
        assert(sv =~= strings_view(visiting0).push(id@));
        assert(sv.no_duplicates()) by {
            assert forall|a: int, b: int| 0 <= a < sv.len() && 0 <= b < sv.len() && a != b implies sv[a] != sv[b] by {
                if a < visiting0.len() && b < visiting0.len() {
                    assert(sv[a] == strings_view(visiting0)[a]);
                    assert(sv[b] == strings_view(visiting0)[b]);
                } else if a < visiting0.len() {
                    assert(sv[a] == strings_view(visiting0)[a]);
                } else {
                    assert(sv[b] == strings_view(visiting0)[b]);
                }
            }
        }
        assert forall|i: int| 0 <= i < sv.len() implies node_ids(nodes@).contains(#[trigger] sv[i]) by {
            if i < visiting0.len() {
                assert(sv[i] == visiting0[i]@);
            }
        }
        crate::collections::lemma_sorted_no_duplicates(node_ids(nodes@));
        crate::collections::lemma_unique_subseq_len(sv, node_ids(nodes@));
    }
    let node = &nodes[k];
    proof {
        if clear {
            if bad != Some(id@) {
                assert(node_checked(program, nodes@, nodes@[k as int]));
            } else {
                assert(authority_mismatch(program, node_at(nodes@, id@)));
            }
            assert(ord.contains(nodes@[k as int].id@));
        }
    }
    assert(clear ==> node.id@ == node_id_spec(node.atom@));
    assert(clear && node.kind == ProofNodeKind::Derivation ==> node_checked(program, nodes@, *node));
    assert(clear && node.kind == ProofNodeKind::Fact && bad != Some(id@) ==> node_checked(program, nodes@, *node));
    assert(clear && bad == Some(id@) ==> authority_mismatch(program, *node));
    let expected_id = node_id(&node.atom);
    if !str_eq(node.id.as_str(), expected_id.as_str()) {
        let mut out: Vec<char> = Vec::new();
        push_str(&mut out, "proof node ");
        push_debug(&mut out, node.id.as_str());
        push_str(&mut out, ": id does not match its atom; expected ");
        push_str(&mut out, expected_id.as_str());
        return Err(invalid(out));
    }
    match node.kind {
        ProofNodeKind::Fact => {
            match check_fact_node(program, temporal, node) {
                Ok(()) => {},
                Err(e) => {
                    return Err(e);
                },
            }
        },
        ProofNodeKind::Derivation => {
            if node.temporal.is_some() {
                return Err(node_message(node.id.as_str(), ": derived nodes cannot declare fact temporal evidence"));
            }
            if node.authority.is_some() {
                return Err(node_message(node.id.as_str(), ": derived nodes cannot declare fact authority"));
            }
            let source_id = match &node.source_id {
                Some(s) => s,
                None => {
                    return Err(node_message(node.id.as_str(), ": missing rule source_id"));
                },
            };
            proof {
                if clear {
                    let j0 = choose|j0: int|
                        0 <= j0 < program.rules@.len() && #[trigger] program.rules@[j0].id@ == node.source_id->0@
                            && rule_yields(program.rules@[j0], premise_node_atoms(nodes@, node.premises@), node.atom@);
                    assert(program.rules@[j0].id@ == source_id@);
                }
            }
            let j = match find_rule(program, source_id.as_str()) {
                Some(j) => j,
                None => {
                    return Err(node_source_message(node.id.as_str(), ": rule source ", source_id.as_str(), " does not exist"));
                },
            };
            let rule = &program.rules[j];
            proof {
                if clear {
                    let j0 = choose|j0: int|
                        0 <= j0 < program.rules@.len() && #[trigger] program.rules@[j0].id@ == node.source_id->0@
                            && rule_yields(program.rules@[j0], premise_node_atoms(nodes@, node.premises@), node.atom@);
                    assert(crate::reasoning::rule_ids(program.rules@)[j0] == program.rules@[j0].id@);
                    assert(crate::reasoning::rule_ids(program.rules@)[j as int] == program.rules@[j as int].id@);
                    assert(j0 == j);
                    assert(rule_yields(*rule, premise_node_atoms(nodes@, node.premises@), node.atom@));
                }
            }
            if node.premises.len() != rule.when.len() {
                let mut out: Vec<char> = Vec::new();
                push_str(&mut out, "proof node ");
                push_debug(&mut out, node.id.as_str());
                push_str(&mut out, ": rule ");
                push_debug(&mut out, source_id.as_str());
                push_str(&mut out, " expects ");
                crate::text::push_decimal(&mut out, rule.when.len() as u64);
                push_str(&mut out, " premises, got ");
                crate::text::push_decimal(&mut out, node.premises.len() as u64);
                return Err(invalid(out));
            }
            let mut bindings = no_bindings();
            let mut m: usize = 0;
            while m < rule.when.len()
                invariant
                    context_ok(program, temporal),
                    strictly_sorted(node_ids(nodes@)),
                    k < nodes@.len(),
                    node == &nodes@[k as int],
                    j < program.rules@.len(),
                    rule == &program.rules@[j as int],
                    node.premises@.len() == rule.when@.len(),
                    m <= rule.when@.len(),
                    visiting@ == visiting0.push(*id),
                    visiting0 == old(visiting)@,
                    strings_view(visiting@).no_duplicates(),
                    forall|i: int| 0 <= i < visiting@.len() ==> node_ids(nodes@).contains(#[trigger] visiting@[i]@),
                    visiting@.len() <= nodes@.len(),
                    forall|x: Seq<char>| #[trigger] verified0.has(x) ==> verified.has(x),
                    forall|x: Seq<char>| #[trigger] verified.has(x) ==> node_ids(nodes@).contains(x) && node_checked(
                        program,
                        nodes@,
                        node_at(nodes@, x),
                    ),
                    forall|i: int| 0 <= i < m ==> node_ids(nodes@).contains(#[trigger] node.premises@[i]@),
                    forall|x: Seq<char>| #[trigger] verified.has(x) <==> strings_view(order@).contains(x),
                    premises_first(nodes@, strings_view(order@)),
                    forall|x: Seq<char>| #[trigger] verified.has(x) ==> reachable(nodes@, root, x),
                    reachable(nodes@, root, id@),
                    node_at(nodes@, id@) == *node,
                    forall|i: int| 0 <= i < m ==> verified.has(#[trigger] node.premises@[i]@),
                    forall|x: Seq<char>| #[trigger] verified.has(x) ==> verified0.has(x) || reachable(nodes@, id@, x),
                    forall|x: Seq<char>| strings_view(visiting@).contains(x) ==> (#[trigger] verified.has(x) == verified0.has(x)),
                    !verified0.has(id@),
                    match_chain(
                        atom_views(rule.when@).take(m as int),
                        premise_node_atoms(nodes@, node.premises@.take(m as int)),
                        Map::empty(),
                    ) == Some(bindings_view(&bindings)),
                    clear == walk_clear(program, nodes@, ord, visiting0, id@, bad),
                    clear ==> ord.contains(id@),
                    clear ==> node_checked(program, nodes@, *node),
                    clear ==> rule_yields(*rule, premise_node_atoms(nodes@, node.premises@), node.atom@),
                decreases rule.when.len() - m,
            {
                let premise_id = &node.premises[m];
                proof {
                    assert(premise_link(nodes@, id@, premise_id@));
                    lemma_reach_step(nodes@, root, id@, premise_id@);
                }
                assert(clear ==> walk_clear(program, nodes@, ord, visiting@, premise_id@, bad)) by {
                    if clear {
                        lemma_premise_earlier(nodes@, ord, id@, m as int);
                        assert forall|i: int| 0 <= i < visiting@.len() implies ord.index_of(#[trigger] visiting@[i]@) > ord.index_of(
                            premise_id@,
                        ) by {
                            if i < visiting0.len() {
                                assert(visiting@[i] == visiting0[i]);
                            }
                        }
                        assert(walk_clear(program, nodes@, ord, visiting@, premise_id@, bad));
                    }
                }
                let ghost verified_before = *verified;
                match verify_node(program, temporal, nodes, premise_id, visiting, verified, order, Ghost(root), Ghost(ord), Ghost(bad)) {
                    Ok(()) => {},
                    Err(e) => {
                        return Err(e);
                    },
                }
                proof {
                    assert forall|x: Seq<char>| #[trigger] verified.has(x) implies verified0.has(x) || reachable(nodes@, id@, x) by {
                        if !verified_before.has(x) {
                            lemma_reach_prepend(nodes@, id@, premise_id@, x);
                        }
                    }
                }
                let pk = match find_node(nodes, premise_id.as_str()) {
                    Some(pk) => pk,
                    None => {
                        return Err(node_source_message(node.id.as_str(), ": premise ", premise_id.as_str(), " does not exist"));
                    },
                };
                let premise = &nodes[pk];
                let ghost before = bindings;
                assert(clear ==> crate::engine::match_atom_spec(rule.when@[m as int]@, premise.atom@, bindings_view(&bindings)) is Some) by {
                    if clear {
                        let pv = atom_views(rule.when@);
                        let full = premise_node_atoms(nodes@, node.premises@);
                        assert(full.take(m as int) =~= premise_node_atoms(nodes@, node.premises@.take(m as int)));
                        crate::engine::lemma_match_chain_step(pv, full, m as int, bindings_view(&bindings));
                        assert(full[m as int] == premise.atom@);
                        assert(pv[m as int] == rule.when@[m as int]@);
                    }
                }
                match match_atom(&rule.when[m], &premise.atom, &bindings) {
                    Some(b) => {
                        bindings = b;
                    },
                    None => {
                        let mut out: Vec<char> = Vec::new();
                        push_str(&mut out, "proof node ");
                        push_debug(&mut out, node.id.as_str());
                        push_str(&mut out, ": premise ");
                        crate::text::push_decimal(&mut out, m as u64);
                        push_str(&mut out, " does not satisfy rule ");
                        push_debug(&mut out, source_id.as_str());
                        return Err(invalid(out));
                    },
                }
                proof {
                    let pv = atom_views(rule.when@);
                    assert(pv.take(m + 1).drop_last() =~= pv.take(m as int));
                    assert(pv.take(m + 1).last() == rule.when@[m as int]@);
                    let pa = premise_node_atoms(nodes@, node.premises@.take(m + 1));
                    assert(pa.drop_last() =~= premise_node_atoms(nodes@, node.premises@.take(m as int)));
                    assert(pa[m as int] == premise.atom@);
                    assert forall|i: int| 0 <= i < m + 1 implies node_ids(nodes@).contains(#[trigger] node.premises@[i]@) by {}
                }
                m += 1;
            }
            let conclusion = instantiate(&rule.head, &bindings);
            proof {
                if clear {
                    assert(atom_views(rule.when@).take(rule.when@.len() as int) =~= atom_views(rule.when@));
                    assert(node.premises@.take(rule.when@.len() as int) =~= node.premises@);
                }
            }
            if !atom_eq(&conclusion, &node.atom) {
                return Err(node_source_message(node.id.as_str(), ": conclusion does not follow from rule ", source_id.as_str(), ""));
            }
            proof {
                assert(atom_views(rule.when@).take(rule.when@.len() as int) =~= atom_views(rule.when@));
                assert(node.premises@.take(rule.when@.len() as int) =~= node.premises@);
                assert(rule_yields(*rule, premise_node_atoms(nodes@, node.premises@), node.atom@));
                assert(rule_justifies(program, node.source_id->0@, premise_node_atoms(nodes@, node.premises@), node.atom@));
            }
        },
    }
    let ghost verified1 = *verified;
    let ghost order1 = strings_view(order@);
    proof {
        assert(node_checked(program, nodes@, node_at(nodes@, id@)));
        assert(!verified1.has(id@)) by {
            assert(strings_view(visiting@).contains(id@)) by {
                assert(strings_view(visiting@)[visiting@.len() - 1] == id@);
            }
        }
        assert forall|m: int| 0 <= m < node_at(nodes@, id@).premises@.len() implies order1.contains(
            #[trigger] node_at(nodes@, id@).premises@[m]@,
        ) by {
            assert(verified1.has(node_at(nodes@, id@).premises@[m]@));
        }
        lemma_premises_first_push(nodes@, order1, id@);
    }
    order.push(id.clone());
    visiting.pop();
    verified.insert(id.clone());
    proof {
        assert(strings_view(order@) =~= order1.push(id@));
        assert forall|x: Seq<char>| #[trigger] verified.has(x) <==> strings_view(order@).contains(x) by {
            if x != id@ {
                assert(verified.has(x) == verified1.has(x));
                assert(strings_view(order@).contains(x) == order1.contains(x)) by {
                    if strings_view(order@).contains(x) {
                        let i = choose|i: int| 0 <= i < strings_view(order@).len() && strings_view(order@)[i] == x;
                        assert(i < order1.len());
                        assert(order1[i] == x);
                    }
                    if order1.contains(x) {
                        let i = choose|i: int| 0 <= i < order1.len() && order1[i] == x;
                        assert(strings_view(order@)[i] == x);
                    }
                }
            } else {
                assert(strings_view(order@)[order1.len() as int] == id@);
            }
        }
        assert forall|x: Seq<char>| #[trigger] verified.has(x) implies reachable(nodes@, root, x) by {
            if x != id@ {
                assert(verified1.has(x));
            }
        }
        assert forall|x: Seq<char>| strings_view(visiting0).contains(x) implies (#[trigger] verified.has(x) == verified0.has(x)) by {
            if x == id@ {
                assert(false);
            }
            assert(strings_view(visiting0.push(*id)).contains(x)) by {
                let i = choose|i: int| 0 <= i < strings_view(visiting0).len() && strings_view(visiting0)[i] == x;
                assert(strings_view(visiting0.push(*id))[i] == x);
            }
        }
        assert(visiting@ =~= visiting0);
        assert(node_checked(program, nodes@, node_at(nodes@, id@)));
        assert forall|x: Seq<char>| #[trigger] verified.has(x) implies node_ids(nodes@).contains(x) && node_checked(
            program,
            nodes@,
            node_at(nodes@, x),
        ) by {
            if x != id@ {
                assert(verified1.has(x));
            }
        }
        assert forall|x: Seq<char>| #[trigger] verified0.has(x) implies verified.has(x) by {
            assert(verified1.has(x));
        }
        assert forall|x: Seq<char>|
            #![trigger verified.has(x)]
            #![trigger reachable(nodes@, id@, x)]
            verified.has(x) <==> (verified0.has(x) || reachable(nodes@, id@, x)) by {
            if verified.has(x) && x != id@ {
                assert(verified1.has(x));
            }
            if x == id@ {
                lemma_reach_self(nodes@, id@);
            }
            if reachable(nodes@, id@, x) {
                assert(strings_view(order@).contains(id@));
                lemma_order_reach(nodes@, strings_view(order@), id@, x);
            }
        }
        assert(strings_view(order@).contains(id@));
        lemma_no_cycle_through(nodes@, strings_view(order@), id@);
    }
    Ok(())
}


fn path_error(path: &str, rest: &str) -> (e: ReasonError)
    ensures
        e is InvalidProof,
{
    let mut out: Vec<char> = Vec::new();
    push_str(&mut out, path);
    push_str(&mut out, rest);
    invalid(out)
}

/// A set that holds the root and the premises of each of its nodes holds
/// every node reachable from the root.
proof fn lemma_reach_closed(nodes: Seq<ProofNode>, root: Seq<char>, set: Set<Seq<char>>, x: Seq<char>)
    requires
        set.contains(root),
        forall|y: Seq<char>, m: int|
            set.contains(y) && 0 <= m < node_at(nodes, y).premises@.len() ==> set.contains(
                #[trigger] node_at(nodes, y).premises@[m]@,
            ),
        reachable(nodes, root, x),
    ensures
        set.contains(x),
{
    let path = choose|path: Seq<Seq<char>>|
        path.len() > 0 && path[0] == root && #[trigger] path.last() == x && forall|i: int|
            0 <= i < path.len() - 1 ==> premise_link(nodes, #[trigger] path[i], path[i + 1]);
    lemma_path_in(nodes, path, set, path.len() - 1);
}

proof fn lemma_path_in(nodes: Seq<ProofNode>, path: Seq<Seq<char>>, set: Set<Seq<char>>, i: int)
    requires
        0 <= i < path.len(),
        set.contains(path[0]),
        forall|y: Seq<char>, m: int|
            set.contains(y) && 0 <= m < node_at(nodes, y).premises@.len() ==> set.contains(
                #[trigger] node_at(nodes, y).premises@[m]@,
            ),
        forall|i: int| 0 <= i < path.len() - 1 ==> premise_link(nodes, #[trigger] path[i], path[i + 1]),
    ensures
        set.contains(path[i]),
    decreases i,
{
    if i > 0 {
        lemma_path_in(nodes, path, set, i - 1);
        assert(premise_link(nodes, path[i - 1], path[i]));
        let m = choose|m: int| 0 <= m < node_at(nodes, path[i - 1]).premises@.len() && #[trigger] node_at(nodes, path[i - 1]).premises@[m]@ == path[i];
    }
}

/// The proof passes every check of the verifier but one: its node `b` is a
/// fact node whose authority is not that of its fact.
pub open spec fn proof_verified_but(p: &Program, proof: &Proof, expected: AtomV, b: Seq<char>) -> bool {
    let nodes = proof.nodes@;
    &&& proof.digest@ == proof_digest_spec(proof.root@, nodes)
    &&& strictly_sorted(node_ids(nodes))
    &&& node_ids(nodes).contains(proof.root@)
    &&& node_at(nodes, proof.root@).atom@ == expected
    &&& forall|k: int| 0 <= k < nodes.len() && nodes[k].id@ != b ==> node_checked(p, nodes, #[trigger] nodes[k])
    &&& node_ids(nodes).contains(b)
    &&& authority_mismatch(p, node_at(nodes, b))
}

/// A node whose authority is not that of its fact is not checked.
proof fn lemma_mismatch_unchecked(p: &Program, nodes: Seq<ProofNode>, n: ProofNode)
    requires
        all_distinct(fact_ids(p.facts@)),
        authority_mismatch(p, n),
    ensures
        !node_checked(p, nodes, n),
{
    if node_checked(p, nodes, n) {
        let i = choose|i: int|
            0 <= i < p.facts@.len() && #[trigger] p.facts@[i].id@ == n.source_id->0@ && fact_supports(
                p,
                p.facts@[i],
                n.atom@,
                n.authority->0@,
                n.temporal,
            );
        let i2 = choose|i2: int|
            0 <= i2 < p.facts@.len() && #[trigger] p.facts@[i2].id@ == n.source_id->0@ && p.facts@[i2].atom@ == n.atom@ && (
            n.authority is None || n.authority->0@ != p.facts@[i2].authority@);
        assert(fact_ids(p.facts@)[i] == p.facts@[i].id@);
        assert(fact_ids(p.facts@)[i2] == p.facts@[i2].id@);
        assert(i == i2);
    }
}

/// Checks one proof of `expected`; returns the number of nodes verified.
fn verify_one_proof(
    program: &Program,
    temporal: &Option<TemporalReport>,
    proof: &Proof,
    expected: &Atom,
    path: &str,
) -> (r: Result<usize, ReasonError>)
    requires
        context_ok(program, temporal),
    ensures
        r matches Err(e) ==> e is InvalidProof,
        r matches Ok(n) ==> proof_verified(program, proof, expected@) && n == proof.nodes@.len(),
        r is Ok ==> proof_dag(proof.nodes@, proof.root@),
        proof_verified(program, proof, expected@) && proof_dag(proof.nodes@, proof.root@) && all_distinct(
            crate::reasoning::rule_ids(program.rules@),
        ) ==> r is Ok,
        forall|b: Seq<char>|
            #[trigger] proof_verified_but(program, proof, expected@, b) && proof_dag(proof.nodes@, proof.root@) && all_distinct(
                crate::reasoning::rule_ids(program.rules@),
            ) ==> (r matches Err(ReasonError::InvalidProof(m)) && m@ == authority_mismatch_message(node_at(proof.nodes@, b))),
{
    let ghost sound = proof_verified(program, proof, expected@) && proof_dag(proof.nodes@, proof.root@) && all_distinct(
        crate::reasoning::rule_ids(program.rules@),
    );
    let ghost flawed = exists|b: Seq<char>|
        #[trigger] proof_verified_but(program, proof, expected@, b) && proof_dag(proof.nodes@, proof.root@) && all_distinct(
            crate::reasoning::rule_ids(program.rules@),
        );
    let ghost bad: Option<Seq<char>> = if flawed {
        Some(
            choose|b: Seq<char>|
                #[trigger] proof_verified_but(program, proof, expected@, b) && proof_dag(proof.nodes@, proof.root@) && all_distinct(
                    crate::reasoning::rule_ids(program.rules@),
                ),
        )
    } else {
        None
    };
    proof {
        if flawed {
            let b = bad->0;
            assert forall|b2: Seq<char>|
                #[trigger] proof_verified_but(program, proof, expected@, b2) && proof_dag(proof.nodes@, proof.root@) implies b2 == b by {
                if b2 != b {
                    let k = node_ids(proof.nodes@).index_of(b2);
                    assert(node_ids(proof.nodes@)[k] == proof.nodes@[k].id@);
                    assert(node_checked(program, proof.nodes@, proof.nodes@[k]));
                    lemma_mismatch_unchecked(program, proof.nodes@, node_at(proof.nodes@, b2));
                }
            }
        }
        assert forall|b: Seq<char>|
            #[trigger] proof_verified_but(program, proof, expected@, b) && proof_dag(proof.nodes@, proof.root@) && all_distinct(
                crate::reasoning::rule_ids(program.rules@),
            ) implies flawed && bad == Some(b) by {}
        if sound && flawed {
            let b = bad->0;
            let k = node_ids(proof.nodes@).index_of(b);
            assert(node_ids(proof.nodes@)[k] == proof.nodes@[k].id@);
            assert(node_checked(program, proof.nodes@, proof.nodes@[k]));
            lemma_mismatch_unchecked(program, proof.nodes@, node_at(proof.nodes@, b));
        }
    }
    let expected_digest = proof_digest(proof.root.as_str(), &proof.nodes);
    if !str_eq(proof.digest.as_str(), expected_digest.as_str()) {
        let mut out: Vec<char> = Vec::new();
        push_str(&mut out, path);
        push_str(&mut out, ".digest: mismatch; expected ");
        push_str(&mut out, expected_digest.as_str());
        return Err(invalid(out));
    }
    let nodes = &proof.nodes;
    let mut i: usize = 1;
    while i < nodes.len()
        invariant
            1 <= i,
            forall|a: int, b: int| 0 <= a < b < i && b < nodes@.len() ==> seq_lt_ids(nodes@, a, b),
            nodes == &proof.nodes,
            sound == (proof_verified(program, proof, expected@) && proof_dag(proof.nodes@, proof.root@) && all_distinct(
                crate::reasoning::rule_ids(program.rules@),
            )),
            bad matches Some(b) ==> proof_verified_but(program, proof, expected@, b),
            forall|b: Seq<char>|
                #[trigger] proof_verified_but(program, proof, expected@, b) && proof_dag(proof.nodes@, proof.root@) && all_distinct(
                    crate::reasoning::rule_ids(program.rules@),
                ) ==> bad == Some(b),
        decreases nodes.len() - i,
    {
        proof {
            if sound || bad is Some {
                assert(node_ids(nodes@)[i - 1] == nodes@[i - 1].id@);
                assert(node_ids(nodes@)[i as int] == nodes@[i as int].id@);
            }
        }
        if !str_lt(nodes[i - 1].id.as_str(), nodes[i].id.as_str()) {
            return Err(path_error(path, ".nodes: must be uniquely sorted by node id"));
        }
        proof {
            assert forall|a: int, b: int| 0 <= a < b < i + 1 && b < nodes@.len() implies seq_lt_ids(nodes@, a, b) by {
                if b == i && a < i - 1 {
                    assert(seq_lt_ids(nodes@, a, i - 1));
                    crate::text::lemma_seq_lt_transitive(nodes@[a].id@, nodes@[i - 1].id@, nodes@[b].id@);
                }
            }
        }
        i += 1;
    }
    proof {
        assert forall|a: int, b: int| 0 <= a < b < node_ids(nodes@).len() implies crate::text::seq_lt(
            #[trigger] node_ids(nodes@)[a],
            #[trigger] node_ids(nodes@)[b],
        ) by {
            assert(seq_lt_ids(nodes@, a, b));
        }
    }
    let k = match find_node(nodes, proof.root.as_str()) {
        Some(k) => k,
        None => {
            return Err(path_error(path, ".root: node does not exist"));
        },
    };
    if !atom_eq(&nodes[k].atom, expected) {
        return Err(path_error(path, ".root: conclusion does not match"));
    }
    let mut visiting: Vec<String> = Vec::new();
    let mut verified = StrSet::new();
    let mut order: Vec<String> = Vec::new();
    let ghost ord = choose|o: Seq<Seq<char>>|
        premises_first(nodes@, o) && forall|k: int| 0 <= k < nodes@.len() ==> o.contains(#[trigger] nodes@[k].id@);
    proof {
        if sound {
            assert(walk_clear(program, nodes@, ord, visiting@, proof.root@, None));
        }
        if flawed {
            assert(walk_clear(program, nodes@, ord, visiting@, proof.root@, bad));
        }
    }
    proof {
        assert(strings_view(visiting@).no_duplicates());
        assert(strings_view(order@) =~= Seq::<Seq<char>>::empty());
        let path = seq![proof.root@];
        assert(path.last() == proof.root@);
        assert(reachable(nodes@, proof.root@, proof.root@));
    }
    match verify_node(program, temporal, nodes, &proof.root, &mut visiting, &mut verified, &mut order, Ghost(proof.root@), Ghost(ord), Ghost(bad)) {
        Ok(()) => {
            proof {
                if flawed {
                    let b = bad->0;
                    let j = node_ids(nodes@).index_of(b);
                    assert(node_ids(nodes@)[j] == nodes@[j].id@);
                    assert(reachable(nodes@, proof.root@, nodes@[j].id@));
                    assert(verified.has(b));
                    lemma_mismatch_unchecked(program, nodes@, node_at(nodes@, b));
                }
            }
        },
        Err(e) => {
            return Err(e);
        },
    }
    proof {
        if sound {
            use_type_invariant(&verified);
            let vs = verified.view_seq();
            let set = Set::new(|x: Seq<char>| verified.has(x));
            let ov = strings_view(order@);
            assert forall|y: Seq<char>, m: int|
                set.contains(y) && 0 <= m < node_at(nodes@, y).premises@.len() implies set.contains(
                    #[trigger] node_at(nodes@, y).premises@[m]@,
                ) by {
                assert(ov.contains(y));
                let a = choose|a: int| 0 <= a < ov.len() && ov[a] == y;
                assert(ov.take(a).contains(node_at(nodes@, ov[a]).premises@[m]@));
                let b = choose|b: int| 0 <= b < ov.take(a).len() && ov.take(a)[b] == node_at(nodes@, y).premises@[m]@;
                assert(ov[b] == node_at(nodes@, y).premises@[m]@);
                assert(ov.contains(node_at(nodes@, y).premises@[m]@));
            }
            assert forall|j: int| 0 <= j < node_ids(nodes@).len() implies vs.contains(#[trigger] node_ids(nodes@)[j]) by {
                assert(node_ids(nodes@)[j] == nodes@[j].id@);
                assert(reachable(nodes@, proof.root@, nodes@[j].id@));
                lemma_reach_closed(nodes@, proof.root@, set, nodes@[j].id@);
            }
            crate::collections::lemma_sorted_no_duplicates(vs);
            crate::collections::lemma_sorted_no_duplicates(node_ids(nodes@));
            assert forall|a: int| 0 <= a < vs.len() implies node_ids(nodes@).contains(#[trigger] vs[a]) by {
                assert(verified.has(vs[a]));
            }
            crate::collections::lemma_unique_subseq_len(vs, node_ids(nodes@));
            crate::collections::lemma_unique_subseq_len(node_ids(nodes@), vs);
        }
    }
    if verified.len() != nodes.len() {
        return Err(path_error(path, ".nodes: contains nodes unreachable from the proof root"));
    }
    proof {
        use_type_invariant(&verified);
        let vs = verified.view_seq();
        crate::collections::lemma_sorted_no_duplicates(vs);
        crate::collections::lemma_sorted_no_duplicates(node_ids(nodes@));
        assert forall|a: int| 0 <= a < vs.len() implies node_ids(nodes@).contains(#[trigger] vs[a]) by {
            assert(verified.has(vs[a]));
        }
        crate::collections::lemma_unique_subseq_len(vs, node_ids(nodes@));
        assert forall|j: int| 0 <= j < nodes@.len() implies node_checked(program, nodes@, #[trigger] nodes@[j]) by {
            assert(node_ids(nodes@)[j] == nodes@[j].id@);
            assert(vs.contains(node_ids(nodes@)[j]));
            assert(verified.has(nodes@[j].id@));
            crate::collections::lemma_sorted_index_of(node_ids(nodes@), j);
        }
        let ov = strings_view(order@);
        assert forall|j: int| 0 <= j < nodes@.len() implies ov.contains(#[trigger] nodes@[j].id@) by {
            assert(node_ids(nodes@)[j] == nodes@[j].id@);
            assert(vs.contains(node_ids(nodes@)[j]));
            assert(verified.has(nodes@[j].id@));
        }
        assert forall|j: int| 0 <= j < nodes@.len() implies reachable(nodes@, proof.root@, #[trigger] nodes@[j].id@) by {
            assert(node_ids(nodes@)[j] == nodes@[j].id@);
            assert(vs.contains(node_ids(nodes@)[j]));
            assert(verified.has(nodes@[j].id@));
        }
        assert(premises_first(nodes@, ov));
    }
    Ok(verified.len())
}

/// Node `a` has a smaller id than node `b`.
pub open spec fn seq_lt_ids(nodes: Seq<ProofNode>, a: int, b: int) -> bool {
    crate::text::seq_lt(nodes[a].id@, nodes[b].id@)
}


/// The verdict of a successful verification.
#[derive(Clone, Copy, Debug, PartialEq, Eq, Structural)]
pub enum VerificationStatus {
    Verified,
}

/// What an independent verification of a check result found.
pub struct VerificationResult {
    pub schema: String,
    pub status: VerificationStatus,
    pub result_status: crate::reasoning::Status,
    pub query: Atom,
    pub evaluation_time: Option<String>,
    pub proof_digests: Vec<String>,
    pub nodes_verified: usize,
}

/// The digests of the proof and the disproof that are present, in that order.
pub open spec fn present_digests(r: &crate::reasoning::CheckResult) -> Seq<Seq<char>> {
    (if r.proof is Some { seq![r.proof->0.digest@] } else { Seq::empty() }) + (if r.disproof is Some {
        seq![r.disproof->0.digest@]
    } else {
        Seq::empty()
    })
}

/// The number of nodes of the proof and the disproof that are present.
pub open spec fn present_nodes(r: &crate::reasoning::CheckResult) -> int {
    (if r.proof is Some { r.proof->0.nodes@.len() as int } else { 0 }) + (if r.disproof is Some {
        r.disproof->0.nodes@.len() as int
    } else {
        0
    })
}

/// What an accepted check result is, for a valid program: it belongs to the
/// program and its reports are the program's; its status is backed by a
/// proof, a disproof, or both, each of which the verifier accepts; a
/// conflict witness comes exactly with both, and matches them.
pub open spec fn result_accepted(p: &Program, r: &crate::reasoning::CheckResult) -> bool {
    let q = p.query@;
    let c = crate::engine::complement_spec(q);
    &&& r.schema@ == if is_v2(p) { crate::model::RESULT_SCHEMA_V2@ } else { crate::model::RESULT_SCHEMA@ }
    &&& r.query@ == q
    &&& r.program_digest@ == crate::model::json_digest(crate::model::program_json(p))
    &&& r.ontology.id@ == p.ontology.id@
    &&& r.ontology.version@ == p.ontology.version@
    &&& r.ontology.digest@ == crate::model::json_digest(crate::model::ontology_json(&p.ontology))
    &&& crate::report::authority_report_ok(p, &r.authority)
    &&& (r.temporal is Some <==> is_v2(p))
    &&& (r.temporal matches Some(t) ==> crate::temporal::temporal_report_ok(p, p.evaluation_time->0@, &t))
    &&& r.status != crate::reasoning::Status::Unknown
    &&& r.status == crate::reasoning::status_of(r.proof is Some, r.disproof is Some)
    &&& (r.proof matches Some(pr) ==> proof_verified(p, &pr, q))
    &&& (r.disproof matches Some(d) ==> proof_verified(p, &d, c))
    &&& (r.conflict is Some <==> r.status == crate::reasoning::Status::Inconsistent)
    &&& (r.conflict matches Some(w) ==> crate::reasoning::conflict_ok(&w, q, &r.proof->0, &r.disproof->0))
}

/// What the verifier checks of a result before its proofs: it belongs to the
/// program, its reports are the program's, and its status is not unknown and
/// matches the presence of proof and disproof.
pub open spec fn result_header_ok(p: &Program, r: &crate::reasoning::CheckResult) -> bool {
    &&& r.schema@ == if is_v2(p) { crate::model::RESULT_SCHEMA_V2@ } else { crate::model::RESULT_SCHEMA@ }
    &&& r.query@ == p.query@
    &&& r.program_digest@ == crate::model::json_digest(crate::model::program_json(p))
    &&& r.ontology.id@ == p.ontology.id@
    &&& r.ontology.version@ == p.ontology.version@
    &&& r.ontology.digest@ == crate::model::json_digest(crate::model::ontology_json(&p.ontology))
    &&& crate::report::authority_report_ok(p, &r.authority)
    &&& (r.temporal is Some <==> is_v2(p))
    &&& (r.temporal matches Some(t) ==> crate::temporal::temporal_report_ok(p, p.evaluation_time->0@, &t))
    &&& r.status != crate::reasoning::Status::Unknown
    &&& r.status == crate::reasoning::status_of(r.proof is Some, r.disproof is Some)
}

/// The result passes every check of the verifier but one: its proof, a DAG,
/// has `b` as its only node that is not checked, a fact node whose authority
/// is not that of its fact.
pub open spec fn result_accepted_but(p: &Program, r: &crate::reasoning::CheckResult, b: Seq<char>) -> bool {
    &&& result_header_ok(p, r)
    &&& r.proof matches Some(pr) && proof_verified_but(p, &pr, p.query@, b) && proof_dag(pr.nodes@, pr.root@)
}

/// The verification record of an accepted result.
pub open spec fn verification_reports(p: &Program, r: &crate::reasoning::CheckResult, v: &VerificationResult) -> bool {
    &&& v.schema@ == if is_v2(p) { crate::model::VERIFICATION_SCHEMA_V2@ } else { crate::model::VERIFICATION_SCHEMA@ }
    &&& v.status == VerificationStatus::Verified
    &&& v.result_status == r.status
    &&& v.query@ == r.query@
    &&& crate::model::opt_view(v.evaluation_time) == crate::model::opt_view(p.evaluation_time)
    &&& strings_view(v.proof_digests@) == present_digests(r)
    &&& v.nodes_verified == present_nodes(r)
}

/// Independently checks a result against its program: that it belongs to
/// the program, that its reports are the program's, and that every proof
/// node is justified by an admitted fact or a rule of the program.
#[verifier::rlimit(60)]
#[verifier::spinoff_prover]
pub fn verify(program: &Program, result: &crate::reasoning::CheckResult) -> (r: Result<VerificationResult, ReasonError>)
    requires
        present_nodes(result) <= usize::MAX,
    ensures
        (r matches Err(ReasonError::InvalidProgram(_))) <==> !program_valid(program),
        r matches Err(e) ==> (e is InvalidProgram || e is InvalidProof),
        r matches Ok(v) ==> program_valid(program) && result_accepted(program, result) && verification_reports(program, result, &v),
        r is Ok ==> result_dags(result),
        program_valid(program) && result_accepted(program, result) && result_dags(result) ==> r is Ok,
        forall|b: Seq<char>|
            program_valid(program) && #[trigger] result_accepted_but(program, result, b) ==> (r matches Err(
                ReasonError::InvalidProof(m),
            ) && m@ == authority_mismatch_message(node_at(result.proof->0.nodes@, b))),
{
    let ghost accepted = program_valid(program) && result_accepted(program, result) && result_dags(result);
    let ghost header = program_valid(program) && result_header_ok(program, result);
    assert(accepted ==> header);
    match crate::program::validate(program) {
        Ok(()) => {},
        Err(e) => {
            return Err(e);
        },
    }
    proof {
        crate::reasoning::lemma_rule_ids_distinct(program);
        crate::program::lemma_fact_ids_distinct(program);
        assert(crate::temporal::all_observed(program.facts@) || !is_v2(program)) by {
            if is_v2(program) {
                assert forall|i: int| 0 <= i < program.facts@.len() implies (#[trigger] program.facts@[i]).observed_at is Some by {
                    assert(crate::program::fact_ok(program, program.facts@[i]));
                }
            }
        }
    }
    let v2 = str_eq(program.schema.as_str(), crate::model::PROGRAM_SCHEMA_V2);
    let expected_schema = if v2 { crate::model::RESULT_SCHEMA_V2 } else { crate::model::RESULT_SCHEMA };
    if !str_eq(result.schema.as_str(), expected_schema) {
        let mut out: Vec<char> = Vec::new();
        push_str(&mut out, "$.schema: expected ");
        push_debug(&mut out, expected_schema);
        push_str(&mut out, ", got ");
        push_debug(&mut out, result.schema.as_str());
        return Err(invalid(out));
    }
    if !atom_eq(&result.query, &program.query) {
        return Err(path_error("$.query", ": does not match the program query"));
    }
    let program_digest = crate::model::digest_json(&crate::model::program_to_json(program));
    if !str_eq(result.program_digest.as_str(), program_digest.as_str()) {
        let mut out: Vec<char> = Vec::new();
        push_str(&mut out, "$.program_digest: mismatch; expected ");
        push_str(&mut out, program_digest.as_str());
        return Err(invalid(out));
    }
    let ontology_digest = crate::model::digest_json(&crate::model::ontology_to_json(&program.ontology));
    if !str_eq(result.ontology.id.as_str(), program.ontology.id.as_str())
        || !str_eq(result.ontology.version.as_str(), program.ontology.version.as_str())
        || !str_eq(result.ontology.digest.as_str(), ontology_digest.as_str()) {
        return Err(path_error("$.ontology", ": identity, version, or digest does not match the program"));
    }
    let expected_authority = crate::report::build_authority_report(program);
    proof {
        if header {
            crate::compare::lemma_authority_unique(program, &result.authority, &expected_authority);
        }
    }
    if !crate::compare::authority_eq(&result.authority, &expected_authority) {
        return Err(path_error("$.authority", ": report does not match the program authority policy"));
    }
    proof { crate::compare::lemma_authority_view_ok(program, &expected_authority, &result.authority); }
    let expected_temporal = crate::temporal::build_temporal_report(program);
    proof {
        if header && is_v2(program) {
            crate::compare::lemma_temporal_unique(program, program.evaluation_time->0@, &result.temporal->0, &expected_temporal->0);
        }
    }
    if !crate::compare::temporal_report_eq(&result.temporal, &expected_temporal) {
        return Err(path_error("$.temporal", ": report does not match the program evaluation time"));
    }
    proof {
        if result.temporal is Some {
            crate::compare::lemma_temporal_view_ok(program, program.evaluation_time->0@, expected_temporal->0, result.temporal->0);
        }
    }
    let complement = crate::engine::complement(&program.query);
    let (want_proof, want_disproof) = match result.status {
        crate::reasoning::Status::Proved => (true, false),
        crate::reasoning::Status::Disproved => (false, true),
        crate::reasoning::Status::Inconsistent => (true, true),
        crate::reasoning::Status::Unknown => {
            return Err(path_error("$.status", ": unknown has no derivation certificate; rerun check against the program"));
        },
    };
    if result.proof.is_some() != want_proof || result.disproof.is_some() != want_disproof {
        return Err(path_error("$.status", ": does not match the presence of proof and disproof"));
    }
    let mut proof_digests: Vec<String> = Vec::new();
    let mut nodes_verified: usize = 0;
    let given_proof = &result.proof;
    match given_proof {
        Some(pr) => {
            match verify_one_proof(program, &expected_temporal, pr, &program.query, "$.proof") {
                Ok(n) => {
                    nodes_verified = n;
                },
                Err(e) => {
                    return Err(e);
                },
            }
            proof_digests.push(pr.digest.clone());
        },
        None => {},
    }
    let given_disproof = &result.disproof;
    match given_disproof {
        Some(d) => {
            match verify_one_proof(program, &expected_temporal, d, &complement, "$.disproof") {
                Ok(n) => {
                    nodes_verified = nodes_verified + n;
                },
                Err(e) => {
                    return Err(e);
                },
            }
            proof_digests.push(d.digest.clone());
        },
        None => {},
    }
    match (&result.status, &result.conflict, &result.proof, &result.disproof) {
        (crate::reasoning::Status::Inconsistent, Some(conflict), Some(pr), Some(d)) => {
            let expected = crate::reasoning::build_conflict_witness(&program.query, pr, d);
            proof {
                if accepted {
                    crate::compare::lemma_conflict_unique(conflict, &expected, program.query@, pr, d);
                }
            }
            if !crate::compare::conflict_eq(conflict, &expected) {
                return Err(path_error("$.conflict", ": witness does not match the two proofs"));
            }
            proof { crate::compare::lemma_conflict_view_ok(&expected, conflict, program.query@, pr, d); }
        },
        (crate::reasoning::Status::Inconsistent, _, _, _) => {
            return Err(path_error("$.conflict", ": inconsistent result requires a conflict witness"));
        },
        (_, Some(_), _, _) => {
            return Err(path_error("$.conflict", ": only an inconsistent result may contain a witness"));
        },
        _ => {},
    }
    let schema = if v2 { crate::model::VERIFICATION_SCHEMA_V2 } else { crate::model::VERIFICATION_SCHEMA };
    let v = VerificationResult {
        schema: String::from_str(schema),
        status: VerificationStatus::Verified,
        result_status: result.status,
        query: result.query.duplicate(),
        evaluation_time: crate::model::clone_opt_string(&program.evaluation_time),
        proof_digests,
        nodes_verified,
    };
    proof {
        assert(strings_view(v.proof_digests@) =~= present_digests(result));
    }
    Ok(v)
}

} // verus!
