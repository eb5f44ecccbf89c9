//! The shape of a node's state, and that every reaction keeps it.

use crate::slots::{grown, with_slot};
use crate::state::{
    appended_echo, digests_sized, distinct_signers, echo_accepted, echo_step, fin_step, has_signer,
    propose_step_with, send_step_with, sup_step, syn_admissible, syn_step, valid_count, NodeView,
};
use vstd::prelude::*;
use vstd::set_lib::{lemma_int_range, lemma_len_subset, set_int_range};

verus! {

/// A SUP keeps the shape of the state.
pub proof fn lemma_sup_step_wf(v: NodeView, o: u32, r: u32)
    requires
        v.wf(),
    ensures
        sup_step(v, o, r).wf(),
{
}

/// A SEND keeps the shape of the state.
pub proof fn lemma_send_step_wf(v: NodeView, s: u32, r: u32, p: Seq<u8>, h: Seq<u8>)
    requires
        v.wf(),
    ensures
        send_step_with(v, s, r, p, h).wf(),
{
}

/// Keeping one more digest of 32 bytes leaves every digest at 32 bytes.
pub proof fn lemma_digest_stored(
    hash_list: Seq<Seq<Option<Seq<u8>>>>,
    o: int,
    r: int,
    h: Seq<u8>,
)
    requires
        digests_sized(hash_list),
        0 <= o < hash_list.len(),
        0 <= r,
        h.len() == 32,
    ensures
        digests_sized(hash_list.update(o, with_slot(hash_list[o], r, None, Some(h)))),
{
    let new_list = hash_list.update(o, with_slot(hash_list[o], r, None, Some(h)));
    assert forall|a: int, b: int|
        0 <= a < new_list.len() && 0 <= b < new_list[a].len() && new_list[a][b] is Some implies (
    #[trigger] new_list[a][b])->0.len() == 32 by {
        if a == o {
            if b != r && b < hash_list[o].len() {
                assert(new_list[a][b] == hash_list[a][b]);
            }
        } else {
            assert(new_list[a][b] == hash_list[a][b]);
        }
    }
}

/// A SYN that can be taken keeps the shape of the state.
pub proof fn lemma_syn_step_wf(v: NodeView, s: u32, pk: Seq<u8>)
    requires
        v.wf(),
        syn_admissible(v, s),
    ensures
        syn_step(v, s, pk).wf(),
{
}

/// A list of entries whose signers are distinct nodes has no more entries
/// than there are nodes.
pub proof fn lemma_distinct_signers_bounded(entries: Seq<(u32, Seq<u8>)>, n: nat)
    requires
        distinct_signers(entries),
        forall|i: int| 0 <= i < entries.len() ==> (#[trigger] entries[i]).0 < n,
    ensures
        entries.len() <= n,
{
    let ids = Seq::new(entries.len(), |i: int| entries[i].0 as int);
    assert forall|i: int, j: int| 0 <= i < ids.len() && 0 <= j < ids.len() && i != j implies ids[i]
        != ids[j] by {
        if i < j {
            assert(entries[i].0 != entries[j].0);
        } else {
            assert(entries[j].0 != entries[i].0);
        }
    }
    ids.unique_seq_to_set();
    lemma_int_range(0, n as int);
    assert forall|x: int| ids.to_set().contains(x) implies set_int_range(0, n as int).contains(
        x,
    ) by {
        let i = choose|i: int| 0 <= i < ids.len() && ids[i] == x;
        assert(entries[i].0 < n);
    }
    lemma_len_subset(ids.to_set(), set_int_range(0, n as int));
}

/// Adding a signature of a node to the collected ones keeps the signers of
/// every round distinct nodes.
pub proof fn lemma_appended_echo(
    rounds: Seq<Seq<(u32, Seq<u8>)>>,
    r: int,
    s: u32,
    sig: Seq<u8>,
    n: nat,
)
    requires
        0 <= r,
        s < n,
        forall|q: int| 0 <= q < rounds.len() ==> distinct_signers(#[trigger] rounds[q]),
        forall|q: int, i: int|
            0 <= q < rounds.len() && 0 <= i < rounds[q].len() ==> (#[trigger] rounds[q][i]).0 < n,
    ensures
        appended_echo(rounds, r, s, sig).len() > r,
        appended_echo(rounds, r, s, sig).len() >= rounds.len(),
        has_signer(appended_echo(rounds, r, s, sig)[r], s),
        forall|q: int|
            0 <= q < appended_echo(rounds, r, s, sig).len() ==> distinct_signers(
                #[trigger] appended_echo(rounds, r, s, sig)[q],
            ),
        forall|q: int, i: int|
            0 <= q < appended_echo(rounds, r, s, sig).len() && 0 <= i < appended_echo(
                rounds,
                r,
                s,
                sig,
            )[q].len() ==> (#[trigger] appended_echo(rounds, r, s, sig)[q][i]).0 < n,
{
    let g = grown(rounds, r, Seq::empty());
    let a = appended_echo(rounds, r, s, sig);
    if !has_signer(g[r], s) {
        let e = g[r].push((s, sig));
        assert(e[g[r].len() as int].0 == s);
        assert(distinct_signers(e)) by {
            assert forall|i: int, j: int| 0 <= i < j < e.len() implies (#[trigger] e[i]).0 != (
            #[trigger] e[j]).0 by {
                if j < g[r].len() {
                    assert(g[r][i].0 != g[r][j].0);
                } else {
                    assert(g[r][i].0 != s);
                }
            }
        }
    }
    assert forall|q: int| 0 <= q < a.len() implies distinct_signers(#[trigger] a[q]) by {
        if q != r || has_signer(g[r], s) {
            if q < rounds.len() {
                assert(a[q] == rounds[q]);
            } else {
                assert(a[q] =~= Seq::empty());
            }
        }
    }
    assert forall|q: int, i: int| 0 <= q < a.len() && 0 <= i < a[q].len() implies (
    #[trigger] a[q][i]).0 < n by {
        if q < rounds.len() {
            if i < rounds[q].len() {
                assert(rounds[q][i].0 < n);
            }
        }
    }
}

/// An ECHO keeps the shape of the state, and the round that it is for has no
/// more signatures afterwards than there are nodes.
pub proof fn lemma_echo_step_wf(v: NodeView, s: u32, r: u32, sig: Seq<u8>)
    requires
        v.wf(),
    ensures
        echo_step(v, s, r, sig).wf(),
        echo_accepted(v, s, r, sig) ==> appended_echo(v.echo_list, r as int, s, sig)[r as int].len()
            <= v.num_nodes,
{
    if echo_accepted(v, s, r, sig) {
        lemma_appended_echo(v.echo_list, r as int, s, sig, v.num_nodes as nat);
        let a = appended_echo(v.echo_list, r as int, s, sig);
        lemma_distinct_signers_bounded(a[r as int], v.num_nodes as nat);
    }
}

/// A FIN keeps the shape of the state.
pub proof fn lemma_fin_step_wf(
    v: NodeView,
    sender: u32,
    r: u32,
    sign_cnt: u32,
    signs: Seq<(u32, Seq<u8>)>,
)
    requires
        v.wf(),
    ensures
        fin_step(v, sender, r, sign_cnt, signs).wf(),
{
}

/// Which entries of a FIN count as valid depends on the node's index and on
/// the announced keys alone.
pub proof fn lemma_valid_count_same_keys(
    v: NodeView,
    w: NodeView,
    h: Seq<u8>,
    signs: Seq<(u32, Seq<u8>)>,
)
    requires
        v.node_ind == w.node_ind,
        v.peer_pkeys == w.peer_pkeys,
    ensures
        valid_count(v, h, signs) == valid_count(w, h, signs),
    decreases signs.len(),
{
    if signs.len() > 0 {
        lemma_valid_count_same_keys(v, w, h, signs.drop_last());
    }
}

/// Proposing keeps the shape of the state.
pub proof fn lemma_propose_step_wf(v: NodeView, h: Seq<u8>, sig: Seq<u8>)
    requires
        v.wf(),
    ensures
        propose_step_with(v, h, sig).wf(),
{
    lemma_appended_echo(v.echo_list, v.curr_round as int, v.node_ind, sig, v.num_nodes as nat);
}

} // verus!
