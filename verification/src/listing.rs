//! The order in which the desktop shell lists the peers it discovered: the
//! most recently heard first, then by name, peers of equal rank in the
//! order they were recorded.

use vstd::prelude::*;
use crate::connection::DISCOVERY_PEER_TTL_MS;
use crate::foundation::{fresh_peers, prune_discovery_peers, DiscoveryPeer};
use crate::text::{lemma_text_lt_irreflexive, lemma_text_lt_total, lemma_text_lt_transitive, text_less, text_lt};

verus! {

/// `a` is listed before `b`: heard later, or heard at the same time with a
/// name that comes first.
pub open spec fn shown_before(a: DiscoveryPeer, b: DiscoveryPeer) -> bool {
    a.discovered_at_unix_ms > b.discovered_at_unix_ms || (a.discovered_at_unix_ms
        == b.discovered_at_unix_ms && text_lt(a.display_name@, b.display_name@))
}

/// `a` and `b` rank alike: heard at the same time, under the same name.
pub open spec fn same_rank(a: DiscoveryPeer, b: DiscoveryPeer) -> bool {
    a.discovered_at_unix_ms == b.discovered_at_unix_ms && a.display_name@ == b.display_name@
}

/// No peer is listed after one it ranks before.
pub open spec fn in_display_order(s: Seq<DiscoveryPeer>) -> bool {
    forall|i: int, j: int| 0 <= i < j < s.len() ==> !shown_before(#[trigger] s[j], #[trigger] s[i])
}

/// The peers of `s` that rank like `p`, in order.
pub open spec fn rank_peers(s: Seq<DiscoveryPeer>, p: DiscoveryPeer) -> Seq<DiscoveryPeer>
    decreases s.len(),
{
    if s.len() == 0 {
        s
    } else {
        let rest = rank_peers(s.drop_last(), p);
        if same_rank(s.last(), p) {
            rest.push(s.last())
        } else {
            rest
        }
    }
}

proof fn lemma_before_asymmetric(a: DiscoveryPeer, b: DiscoveryPeer)
    requires
        shown_before(a, b),
    ensures
        !shown_before(b, a),
        !same_rank(a, b),
{
    if a.discovered_at_unix_ms == b.discovered_at_unix_ms && text_lt(b.display_name@, a.display_name@) {
        lemma_text_lt_transitive(a.display_name@, b.display_name@, a.display_name@);
        lemma_text_lt_irreflexive(a.display_name@);
    }
    if same_rank(a, b) {
        lemma_text_lt_irreflexive(a.display_name@);
    }
}

/// Either one ranks before the other, or they rank alike.
proof fn lemma_rank_total(a: DiscoveryPeer, b: DiscoveryPeer)
    ensures
        shown_before(a, b) || shown_before(b, a) || same_rank(a, b),
{
    lemma_text_lt_total(a.display_name@, b.display_name@);
}

/// What ranks before `a`, which does not rank after `b`, ranks before `b`.
proof fn lemma_before_then_not_after(x: DiscoveryPeer, a: DiscoveryPeer, b: DiscoveryPeer)
    requires
        shown_before(x, a),
        !shown_before(b, a),
    ensures
        shown_before(x, b),
{
    lemma_rank_total(a, b);
    if shown_before(a, b) {
        if x.discovered_at_unix_ms == a.discovered_at_unix_ms && a.discovered_at_unix_ms
            == b.discovered_at_unix_ms {
            lemma_text_lt_transitive(x.display_name@, a.display_name@, b.display_name@);
        }
    }
}

proof fn lemma_rank_add(a: Seq<DiscoveryPeer>, b: Seq<DiscoveryPeer>, p: DiscoveryPeer)
    ensures
        rank_peers(a + b, p) == rank_peers(a, p) + rank_peers(b, p),
    decreases b.len(),
{
    if b.len() == 0 {
        assert(a + b =~= a);
        assert(rank_peers(a, p) + rank_peers(b, p) =~= rank_peers(a, p));
    } else {
        lemma_rank_add(a, b.drop_last(), p);
        assert((a + b).drop_last() =~= a + b.drop_last());
        assert((a + b).last() == b.last());
        if same_rank(b.last(), p) {
            assert(rank_peers(a, p) + rank_peers(b.drop_last(), p).push(b.last()) =~= (rank_peers(
                a,
                p,
            ) + rank_peers(b.drop_last(), p)).push(b.last()));
        }
    }
}

proof fn lemma_rank_none(s: Seq<DiscoveryPeer>, p: DiscoveryPeer)
    requires
        forall|i: int| 0 <= i < s.len() ==> !same_rank(#[trigger] s[i], p),
    ensures
        rank_peers(s, p) == Seq::<DiscoveryPeer>::empty(),
    decreases s.len(),
{
    if s.len() > 0 {
        assert(!same_rank(s[s.len() - 1], p));
        lemma_rank_none(s.drop_last(), p);
    }
}

fn shown_before_exec(a: &DiscoveryPeer, b: &DiscoveryPeer) -> (r: bool)
    ensures
        r == shown_before(*a, *b),
{
    a.discovered_at_unix_ms > b.discovered_at_unix_ms || (a.discovered_at_unix_ms
        == b.discovered_at_unix_ms && text_less(a.display_name.as_str(), b.display_name.as_str()))
}

/// Inserts `x` after every peer it does not rank before.
fn insert_in_order(out: &mut Vec<DiscoveryPeer>, x: DiscoveryPeer)
    requires
        in_display_order(old(out)@),
    ensures
        in_display_order(final(out)@),
        forall|p: DiscoveryPeer|
            #[trigger] rank_peers(final(out)@, p) == if same_rank(x, p) {
                rank_peers(old(out)@, p).push(x)
            } else {
                rank_peers(old(out)@, p)
            },
{
    let ghost before = out@;
    let mut j: usize = 0;
    while j < out.len() && !shown_before_exec(&x, &out[j])
        invariant
            out@ == before,
            j <= before.len(),
            forall|i: int| 0 <= i < j ==> !shown_before(x, #[trigger] before[i]),
        decreases before.len() - j,
    {
        j += 1;
    }
    proof {
        assert forall|i: int| j <= i < before.len() implies shown_before(x, #[trigger] before[i]) by {
            if i > j {
                lemma_before_then_not_after(x, before[j as int], before[i]);
            }
        }
    }
    out.insert(j, x);
    let ghost head = before.take(j as int);
    let ghost tail = before.skip(j as int);
    proof {
        assert(out@ =~= head + seq![x] + tail);
        assert(before =~= head + tail);
        assert forall|a: int, b: int| 0 <= a < b < out@.len() implies !shown_before(
            #[trigger] out@[b],
            #[trigger] out@[a],
        ) by {
            if b < j {
                assert(out@[a] == before[a] && out@[b] == before[b]);
            } else if b == j {
                assert(out@[a] == before[a]);
            } else if a < j {
                assert(out@[a] == before[a] && out@[b] == before[b - 1]);
            } else if a == j {
                assert(out@[b] == before[b - 1]);
                lemma_before_asymmetric(x, before[b - 1]);
            } else {
                assert(out@[a] == before[a - 1] && out@[b] == before[b - 1]);
            }
        }
        assert forall|p: DiscoveryPeer| #[trigger]
            rank_peers(out@, p) == if same_rank(x, p) {
                rank_peers(before, p).push(x)
            } else {
                rank_peers(before, p)
            } by {
            lemma_rank_add(head + seq![x], tail, p);
            lemma_rank_add(head, seq![x], p);
            lemma_rank_add(head, tail, p);
            assert(seq![x].drop_last() =~= Seq::<DiscoveryPeer>::empty());
            assert(rank_peers(Seq::<DiscoveryPeer>::empty(), p) =~= Seq::<DiscoveryPeer>::empty());
            if same_rank(x, p) {
                assert forall|i: int| 0 <= i < tail.len() implies !same_rank(#[trigger] tail[i], p) by {
                    assert(tail[i] == before[j + i]);
                    lemma_before_asymmetric(x, tail[i]);
                }
                lemma_rank_none(tail, p);
                assert(rank_peers(head, p) + seq![x] =~= rank_peers(head, p).push(x));
                assert(rank_peers(before, p) == rank_peers(head, p) + Seq::<DiscoveryPeer>::empty());
                assert(rank_peers(head, p) + Seq::<DiscoveryPeer>::empty() =~= rank_peers(head, p));
            } else {
                assert(rank_peers(head, p) + Seq::<DiscoveryPeer>::empty() =~= rank_peers(head, p));
            }
        }
    }
}

/// The peers heard within the discovery lifetime of `now`, the most
/// recently heard first, then by name; peers of equal rank keep their
/// order.
pub fn list_discovered_peers(peers: Vec<DiscoveryPeer>, now_unix_ms: u128) -> (listed: Vec<
    DiscoveryPeer,
>)
    ensures
        in_display_order(listed@),
        forall|p: DiscoveryPeer|
            #[trigger] rank_peers(listed@, p) == rank_peers(
                fresh_peers(peers@, now_unix_ms, DISCOVERY_PEER_TTL_MS),
                p,
            ),
{
    let fresh = prune_discovery_peers(peers, now_unix_ms, DISCOVERY_PEER_TTL_MS);
    let ghost all = fresh@;
    let n = fresh.len();
    let mut rest = fresh;
    let mut out: Vec<DiscoveryPeer> = Vec::new();
    let mut k: usize = 0;
    while k < n
        invariant
            n == all.len(),
            k <= n,
            rest@ == all.skip(k as int),
            in_display_order(out@),
            forall|p: DiscoveryPeer| #[trigger] rank_peers(out@, p) == rank_peers(all.take(k as int), p),
        decreases n - k,
    {
        let x = rest.remove(0);
        assert(all.take(k as int + 1).drop_last() =~= all.take(k as int));
        assert(all.take(k as int + 1).last() == x);
        assert(rest@ =~= all.skip(k as int + 1));
        let ghost old_out = out@;
        insert_in_order(&mut out, x);
        proof {
            assert forall|p: DiscoveryPeer| #[trigger]
                rank_peers(out@, p) == rank_peers(all.take(k as int + 1), p) by {
                assert(rank_peers(old_out, p) == rank_peers(all.take(k as int), p));
            }
        }
        k += 1;
    }
    assert(all.take(n as int) =~= all);
    out
}

} // verus!
