use vstd::prelude::*;
use vstd::set_lib::{lemma_int_range, lemma_len_subset, set_int_range};

use crate::command::Command;
use crate::document_id::DocumentId;
use crate::error::WoolError;
use crate::content::content_id;
use crate::thesis::{commands_view, content_references, ids_view, thesis_commands, Thesis, ThesisView};
use crate::command::CommandView;

verus! {

/// The commands of several theses, one thesis after another.
pub open spec fn concat_commands(e: Seq<ThesisView>) -> Seq<CommandView>
    decreases e.len(),
{
    if e.len() == 0 {
        seq![]
    } else {
        concat_commands(e.drop_last()) + thesis_commands(e.last())
    }
}

/// The number a sequence of bytes stands for, least significant byte first.
pub open spec fn bytes_number(b: Seq<u8>) -> int
    decreases b.len(),
{
    if b.len() == 0 {
        0
    } else {
        b[0] + 256 * bytes_number(b.skip(1))
    }
}

pub open spec fn pow256(n: nat) -> int
    decreases n,
{
    if n == 0 {
        1
    } else {
        256 * pow256((n - 1) as nat)
    }
}

proof fn lemma_pow256_positive(n: nat)
    ensures
        pow256(n) >= 1,
    decreases n,
{
    if n > 0 {
        lemma_pow256_positive((n - 1) as nat);
    }
}

proof fn lemma_bytes_number_bound(b: Seq<u8>)
    ensures
        0 <= bytes_number(b) < pow256(b.len()),
    decreases b.len(),
{
    if b.len() > 0 {
        lemma_bytes_number_bound(b.skip(1));
        let x = b[0] as int;
        let n = bytes_number(b.skip(1));
        let p = pow256(b.skip(1).len());
        assert(0 <= x + 256 * n < 256 * p) by (nonlinear_arith)
            requires
                0 <= x < 256,
                0 <= n < p,
        ;
    }
}

proof fn lemma_bytes_number_injective(x: Seq<u8>, y: Seq<u8>)
    requires
        x.len() == y.len(),
        bytes_number(x) == bytes_number(y),
    ensures
        x == y,
    decreases x.len(),
{
    if x.len() > 0 {
        let a = x[0] as int;
        let b = y[0] as int;
        let n = bytes_number(x.skip(1));
        let m = bytes_number(y.skip(1));
        lemma_bytes_number_bound(x.skip(1));
        lemma_bytes_number_bound(y.skip(1));
        assert(a == b && n == m) by (nonlinear_arith)
            requires
                0 <= a < 256,
                0 <= b < 256,
                a + 256 * n == b + 256 * m,
        ;
        lemma_bytes_number_injective(x.skip(1), y.skip(1));
        assert(x =~= seq![x[0]] + x.skip(1));
        assert(y =~= seq![y[0]] + y.skip(1));
    }
}

/// How much work is left on a stack of theses and the references still to visit.
pub open spec fn pending(stack: Seq<(Thesis, Vec<DocumentId>)>) -> int
    decreases stack.len(),
{
    if stack.len() == 0 {
        0
    } else {
        pending(stack.drop_last()) + 1 + stack.last().1@.len()
    }
}

proof fn lemma_pending_nonneg(stack: Seq<(Thesis, Vec<DocumentId>)>)
    ensures
        pending(stack) >= 0,
    decreases stack.len(),
{
    if stack.len() > 0 {
        lemma_pending_nonneg(stack.drop_last());
    }
}

/// The theses on a stack of theses and references.
pub open spec fn frames_view(stack: Seq<(Thesis, Vec<DocumentId>)>) -> Seq<ThesisView> {
    stack.map_values(|f: (Thesis, Vec<DocumentId>)| f.0@)
}

pub open spec fn theses_view(all: Seq<Thesis>) -> Seq<ThesisView> {
    all.map_values(|t: Thesis| t@)
}

/// `c` is the commands of theses `emitted`, one after another, and every thesis of `all` is
/// among them.
pub open spec fn backs_up(all: Seq<ThesisView>, emitted: Seq<ThesisView>, c: Seq<CommandView>) -> bool {
    &&& c == concat_commands(emitted)
    &&& forall|j: int| 0 <= j < all.len() ==> emitted.contains(#[trigger] all[j])
}

/// Whether the identifier is among `ids`.
pub fn contains_id(ids: &Vec<DocumentId>, id: &DocumentId) -> (r: bool)
    ensures
        r == exists|j: int| 0 <= j < ids@.len() && (#[trigger] ids@[j])@ == id@,
{
    let mut i: usize = 0;
    while i < ids.len()
        invariant
            i <= ids@.len(),
            forall|j: int| 0 <= j < i ==> (#[trigger] ids@[j])@ != id@,
        decreases ids@.len() - i,
    {
        if ids[i].same_as(id) {
            return true;
        }
        i = i + 1;
    }
    false
}

fn push_commands(result: &mut Vec<Command>, commands: Vec<Command>)
    ensures
        commands_view(final(result)@) == commands_view(old(result)@) + commands_view(commands@),
{
    let mut commands = commands;
    let ghost both = commands_view(old(result)@) + commands_view(commands@);
    result.append(&mut commands);
    assert(commands_view(result@) =~= both);
}

/// Each thesis a reference of `t` names ranks below `t` itself.
pub open spec fn ranked_below(t: ThesisView, rank: spec_fn(Seq<u8>) -> nat) -> bool {
    forall|q: int|
        0 <= q < content_references(t.content).len() ==> rank(#[trigger] content_references(t.content)[q])
            < rank(content_id(t.content))
}

/// What `fetch` finds for an identifier is a thesis with that identifier, ranked above the
/// theses it refers to: following references never leads back to where it started.
pub open spec fn fetches_ranked<F: Fn(&DocumentId) -> Result<Option<Thesis>, WoolError>>(
    fetch: F,
    rank: spec_fn(Seq<u8>) -> nat,
) -> bool {
    forall|id: &DocumentId, x: Result<Option<Thesis>, WoolError>| #[trigger] call_ensures(fetch, (id,), x)
        ==> (x matches Ok(Some(t)) ==> content_id(t@.content) == id@ && ranked_below(t@, rank))
}

/// A thesis with identifier `r` is among `emitted`.
pub open spec fn is_emitted_id(emitted: Seq<ThesisView>, r: Seq<u8>) -> bool {
    exists|j: int| 0 <= j < emitted.len() && content_id((#[trigger] emitted[j]).content) == r
}

/// Each thesis comes after the theses its references name.
pub open spec fn referred_first(emitted: Seq<ThesisView>) -> bool {
    forall|i: int, q: int|
        0 <= i < emitted.len() && 0 <= q < content_references(emitted[i].content).len() ==> is_emitted_id(
            emitted.take(i),
            #[trigger] content_references(emitted[i].content)[q],
        )
}

pub open spec fn frame_id(sv: Seq<(ThesisView, Seq<Seq<u8>>)>, k: int) -> Seq<u8> {
    content_id(sv[k].0.content)
}

pub open spec fn frame_refs(sv: Seq<(ThesisView, Seq<Seq<u8>>)>, k: int) -> Seq<Seq<u8>> {
    content_references(sv[k].0.content)
}

/// The state of the depth-first walk, with each frame's thesis and the references still to
/// visit: those still to visit are the first of the thesis's references; each visited one
/// names an emitted thesis or the thesis of the frame above; fetched frames rank ever lower
/// going up; every identifier already fetched is emitted or on the stack; and what is
/// emitted comes after what it refers to.
#[verifier::opaque]
pub open spec fn walk_inv(
    sv: Seq<(ThesisView, Seq<Seq<u8>>)>,
    emitted: Seq<ThesisView>,
    already: Seq<Seq<u8>>,
    rank: spec_fn(Seq<u8>) -> nat,
) -> bool {
    &&& forall|k: int|
        0 <= k < sv.len() ==> (#[trigger] sv[k]).1.len() <= frame_refs(sv, k).len() && sv[k].1
            == frame_refs(sv, k).take(sv[k].1.len() as int)
    &&& forall|k: int, q: int|
        0 <= k < sv.len() && sv[k].1.len() <= q < frame_refs(sv, k).len() ==> is_emitted_id(
            emitted,
            #[trigger] frame_refs(sv, k)[q],
        ) || (q == sv[k].1.len() && k + 1 < sv.len() && frame_id(sv, k + 1) == frame_refs(sv, k)[q])
    &&& forall|k: int| 1 <= k < sv.len() ==> ranked_below((#[trigger] sv[k]).0, rank)
    &&& forall|m: int, k: int|
        #![trigger frame_id(sv, m), frame_id(sv, k)]
        1 <= m < k < sv.len() ==> rank(frame_id(sv, k)) < rank(frame_id(sv, m))
    &&& forall|a: int|
        0 <= a < already.len() ==> is_emitted_id(emitted, #[trigger] already[a]) || exists|k: int|
            1 <= k < sv.len() && #[trigger] frame_id(sv, k) == already[a]
    &&& referred_first(emitted)
}

proof fn lemma_walk_start(t: ThesisView, emitted: Seq<ThesisView>, already: Seq<Seq<u8>>, rank: spec_fn(Seq<u8>) -> nat)
    requires
        walk_inv(seq![], emitted, already, rank),
    ensures
        walk_inv(seq![(t, content_references(t.content))], emitted, already, rank),
{
    reveal(walk_inv);
    let sv = seq![(t, content_references(t.content))];
    assert(frame_refs(sv, 0).take(sv[0].1.len() as int) =~= sv[0].1);
}

proof fn lemma_walk_emit(
    sv: Seq<(ThesisView, Seq<Seq<u8>>)>,
    emitted: Seq<ThesisView>,
    already: Seq<Seq<u8>>,
    rank: spec_fn(Seq<u8>) -> nat,
)
    requires
        walk_inv(sv, emitted, already, rank),
        sv.len() > 0,
        sv.last().1.len() == 0,
    ensures
        walk_inv(sv.drop_last(), emitted.push(sv.last().0), already, rank),
{
    reveal(walk_inv);
    let top = sv.len() - 1;
    let t = sv.last().0;
    let e2 = emitted.push(t);
    let s2 = sv.drop_last();
    assert forall|r: Seq<u8>| is_emitted_id(emitted, r) implies is_emitted_id(e2, r) by {
        let j = choose|j: int| 0 <= j < emitted.len() && content_id((#[trigger] emitted[j]).content) == r;
        assert(e2[j] == emitted[j]);
    }
    assert(e2[emitted.len() as int] == t);
    assert(is_emitted_id(e2, content_id(t.content)));
    assert forall|k: int, q: int|
        0 <= k < s2.len() && s2[k].1.len() <= q < frame_refs(s2, k).len() implies is_emitted_id(
            e2,
            #[trigger] frame_refs(s2, k)[q],
        ) || (q == s2[k].1.len() && k + 1 < s2.len() && frame_id(s2, k + 1) == frame_refs(s2, k)[q]) by {
        assert(s2[k] == sv[k]);
        assert(frame_refs(s2, k) == frame_refs(sv, k));
        if k + 1 < s2.len() {
            assert(s2[k + 1] == sv[k + 1]);
        }
        if k + 1 == top && q == sv[k].1.len() && frame_id(sv, k + 1) == frame_refs(sv, k)[q] {
            assert(frame_id(sv, top) == content_id(t.content));
        }
    }
    assert forall|a: int| 0 <= a < already.len() implies is_emitted_id(e2, #[trigger] already[a]) || exists|k: int|
        1 <= k < s2.len() && #[trigger] frame_id(s2, k) == already[a] by {
        if !is_emitted_id(emitted, already[a]) {
            let k = choose|k: int| 1 <= k < sv.len() && #[trigger] frame_id(sv, k) == already[a];
            if k < top {
                assert(s2[k] == sv[k]);
                assert(frame_id(s2, k) == already[a]);
            }
        }
    }
    assert forall|i: int, q: int|
        0 <= i < e2.len() && 0 <= q < content_references(e2[i].content).len() implies is_emitted_id(
            e2.take(i),
            #[trigger] content_references(e2[i].content)[q],
        ) by {
        if i < emitted.len() {
            assert(e2.take(i) =~= emitted.take(i));
            assert(e2[i] == emitted[i]);
        } else {
            assert(e2.take(i) =~= emitted);
            assert(frame_refs(sv, top)[q] == content_references(t.content)[q]);
        }
    }
    assert forall|k: int| 0 <= k < s2.len() implies (#[trigger] s2[k]).1.len() <= frame_refs(s2, k).len() && s2[k].1
        == frame_refs(s2, k).take(s2[k].1.len() as int) by {
        assert(s2[k] == sv[k]);
    }
    assert forall|k: int| 1 <= k < s2.len() implies ranked_below((#[trigger] s2[k]).0, rank) by {
        assert(s2[k] == sv[k]);
    }
    assert forall|m: int, k: int| 1 <= m < k < s2.len() implies rank(frame_id(s2, k)) < rank(frame_id(s2, m)) by {
        assert(s2[k] == sv[k]);
        assert(s2[m] == sv[m]);
        assert(frame_id(sv, k) == frame_id(s2, k));
        assert(frame_id(sv, m) == frame_id(s2, m));
    }
}

proof fn lemma_walk_empty(rank: spec_fn(Seq<u8>) -> nat)
    ensures
        walk_inv(seq![], seq![], seq![], rank),
{
    reveal(walk_inv);
}

proof fn lemma_walk_done(
    sv: Seq<(ThesisView, Seq<Seq<u8>>)>,
    emitted: Seq<ThesisView>,
    already: Seq<Seq<u8>>,
    rank: spec_fn(Seq<u8>) -> nat,
)
    requires
        walk_inv(sv, emitted, already, rank),
    ensures
        referred_first(emitted),
{
    reveal(walk_inv);
}

/// The frames of the walk's stack: each thesis with the references still to visit.
pub open spec fn walk_view(stack: Seq<(Thesis, Vec<DocumentId>)>) -> Seq<(ThesisView, Seq<Seq<u8>>)> {
    stack.map_values(|f: (Thesis, Vec<DocumentId>)| (f.0@, ids_view(f.1@)))
}

/// The stack with the top frame's last reference to visit taken off.
pub open spec fn visit_top(sv: Seq<(ThesisView, Seq<Seq<u8>>)>) -> Seq<(ThesisView, Seq<Seq<u8>>)> {
    sv.update(sv.len() - 1, (sv.last().0, sv.last().1.drop_last()))
}

proof fn lemma_visit_keeps_frames(sv: Seq<(ThesisView, Seq<Seq<u8>>)>)
    requires
        sv.len() > 0,
    ensures
        visit_top(sv).len() == sv.len(),
        forall|k: int| 0 <= k < sv.len() ==> #[trigger] frame_id(visit_top(sv), k) == frame_id(sv, k)
            && frame_refs(visit_top(sv), k) == frame_refs(sv, k) && visit_top(sv)[k].0 == sv[k].0,
        forall|k: int| 0 <= k < sv.len() - 1 ==> #[trigger] visit_top(sv)[k] == sv[k],
{
}

proof fn lemma_walk_seen(
    sv: Seq<(ThesisView, Seq<Seq<u8>>)>,
    emitted: Seq<ThesisView>,
    already: Seq<Seq<u8>>,
    rank: spec_fn(Seq<u8>) -> nat,
    a: int,
)
    requires
        walk_inv(sv, emitted, already, rank),
        sv.len() > 0,
        sv.last().1.len() > 0,
        0 <= a < already.len(),
        already[a] == sv.last().1.last(),
    ensures
        walk_inv(visit_top(sv), emitted, already, rank),
{
    reveal(walk_inv);
    let top = sv.len() - 1;
    let n = sv[top].1.len() as int;
    let r = sv.last().1.last();
    let s2 = visit_top(sv);
    lemma_visit_keeps_frames(sv);
    assert(sv[top].1 == frame_refs(sv, top).take(n));
    assert(r == frame_refs(sv, top)[n - 1]);
    if !is_emitted_id(emitted, r) {
        let m = choose|m: int| 1 <= m < sv.len() && #[trigger] frame_id(sv, m) == already[a];
        assert(ranked_below(sv[top].0, rank));
        assert(rank(content_references(sv[top].0.content)[n - 1]) < rank(content_id(sv[top].0.content)));
        if m < top {
            assert(rank(frame_id(sv, top)) < rank(frame_id(sv, m)));
        }
        assert(false);
    }
    assert forall|k: int, q: int|
        0 <= k < s2.len() && s2[k].1.len() <= q < frame_refs(s2, k).len() implies is_emitted_id(
            emitted,
            #[trigger] frame_refs(s2, k)[q],
        ) || (q == s2[k].1.len() && k + 1 < s2.len() && frame_id(s2, k + 1) == frame_refs(s2, k)[q]) by {
        assert(frame_refs(s2, k) == frame_refs(sv, k));
        if k < top {
            assert(s2[k] == sv[k]);
            assert(frame_id(s2, k + 1) == frame_id(sv, k + 1));
        } else if q >= n {
            assert(frame_refs(sv, k)[q] == frame_refs(s2, k)[q]);
        }
    }
    assert forall|k: int| 0 <= k < s2.len() implies (#[trigger] s2[k]).1.len() <= frame_refs(s2, k).len() && s2[k].1
        == frame_refs(s2, k).take(s2[k].1.len() as int) by {
        if k == top {
            assert(s2[k].1 =~= frame_refs(s2, k).take(n - 1));
        } else {
            assert(s2[k] == sv[k]);
        }
    }
    assert forall|k: int| 1 <= k < s2.len() implies ranked_below((#[trigger] s2[k]).0, rank) by {
        assert(s2[k].0 == sv[k].0);
    }
    assert forall|m: int, k: int| 1 <= m < k < s2.len() implies rank(frame_id(s2, k)) < rank(frame_id(s2, m)) by {
        assert(frame_id(s2, k) == frame_id(sv, k));
        assert(frame_id(s2, m) == frame_id(sv, m));
    }
    assert forall|b: int| 0 <= b < already.len() implies is_emitted_id(emitted, #[trigger] already[b]) || exists|k: int|
        1 <= k < s2.len() && #[trigger] frame_id(s2, k) == already[b] by {
        if !is_emitted_id(emitted, already[b]) {
            let k = choose|k: int| 1 <= k < sv.len() && #[trigger] frame_id(sv, k) == already[b];
            assert(frame_id(s2, k) == frame_id(sv, k));
        }
    }
}

proof fn lemma_walk_descend(
    sv: Seq<(ThesisView, Seq<Seq<u8>>)>,
    emitted: Seq<ThesisView>,
    already: Seq<Seq<u8>>,
    rank: spec_fn(Seq<u8>) -> nat,
    x: ThesisView,
)
    requires
        walk_inv(sv, emitted, already, rank),
        sv.len() > 0,
        sv.last().1.len() > 0,
        content_id(x.content) == sv.last().1.last(),
        ranked_below(x, rank),
    ensures
        walk_inv(visit_top(sv).push((x, content_references(x.content))), emitted, already.push(content_id(x.content)), rank),
{
    reveal(walk_inv);
    let top = sv.len() - 1;
    let n = sv[top].1.len() as int;
    let r = sv.last().1.last();
    let s1 = visit_top(sv);
    let s2 = s1.push((x, content_references(x.content)));
    let a2 = already.push(content_id(x.content));
    lemma_visit_keeps_frames(sv);
    assert(sv[top].1 == frame_refs(sv, top).take(n));
    assert(r == frame_refs(sv, top)[n - 1]);
    assert forall|k: int| 0 <= k < s1.len() implies #[trigger] s2[k] == s1[k] by {}
    assert(frame_id(s2, top + 1) == r);
    assert forall|k: int| 0 <= k < s2.len() implies (#[trigger] s2[k]).1.len() <= frame_refs(s2, k).len() && s2[k].1
        == frame_refs(s2, k).take(s2[k].1.len() as int) by {
        if k == top + 1 {
            assert(s2[k].1 =~= frame_refs(s2, k).take(s2[k].1.len() as int));
        } else if k == top {
            assert(s2[k] == s1[k]);
            assert(s2[k].1 =~= frame_refs(s2, k).take(n - 1));
        } else {
            assert(s2[k] == sv[k]);
        }
    }
    assert forall|k: int, q: int|
        0 <= k < s2.len() && s2[k].1.len() <= q < frame_refs(s2, k).len() implies is_emitted_id(
            emitted,
            #[trigger] frame_refs(s2, k)[q],
        ) || (q == s2[k].1.len() && k + 1 < s2.len() && frame_id(s2, k + 1) == frame_refs(s2, k)[q]) by {
        if k < top {
            assert(s2[k] == sv[k]);
            assert(frame_refs(s2, k) == frame_refs(sv, k));
            assert(frame_id(s2, k + 1) == frame_id(sv, k + 1));
        } else if k == top {
            assert(s2[k] == s1[k]);
            assert(frame_refs(s2, k) == frame_refs(sv, k));
        } else {
            assert(s2[k].1 == frame_refs(s2, k));
        }
    }
    assert forall|k: int| 1 <= k < s2.len() implies ranked_below((#[trigger] s2[k]).0, rank) by {
        if k <= top {
            assert(s2[k].0 == sv[k].0);
        }
    }
    if top >= 1 {
        assert(ranked_below(sv[top].0, rank));
        assert(rank(content_references(sv[top].0.content)[n - 1]) < rank(content_id(sv[top].0.content)));
    }
    assert forall|m: int, k: int| 1 <= m < k < s2.len() implies rank(frame_id(s2, k)) < rank(frame_id(s2, m)) by {
        assert(frame_id(s2, m) == frame_id(sv, m));
        if k <= top {
            assert(frame_id(s2, k) == frame_id(sv, k));
        } else if m < top {
            assert(rank(frame_id(sv, top)) < rank(frame_id(sv, m)));
        }
    }
    assert forall|b: int| 0 <= b < a2.len() implies is_emitted_id(emitted, #[trigger] a2[b]) || exists|k: int|
        1 <= k < s2.len() && #[trigger] frame_id(s2, k) == a2[b] by {
        if b == already.len() {
            assert(frame_id(s2, top + 1) == a2[b]);
        } else {
            assert(a2[b] == already[b]);
            if !is_emitted_id(emitted, already[b]) {
                let k = choose|k: int| 1 <= k < sv.len() && #[trigger] frame_id(sv, k) == already[b];
                assert(frame_id(s2, k) == frame_id(sv, k));
            }
        }
    }
}

/// A thesis of `ts` refers to `id`.
pub open spec fn referred_in(ts: Seq<ThesisView>, id: Seq<u8>) -> bool {
    exists|i: int| 0 <= i < ts.len() && content_references((#[trigger] ts[i]).content).contains(id)
}

/// What `fetch` finds for an identifier is a thesis with that identifier.
pub open spec fn fetches_by_id<F: Fn(&DocumentId) -> Result<Option<Thesis>, WoolError>>(fetch: F) -> bool {
    forall|id: &DocumentId, x: Result<Option<Thesis>, WoolError>| #[trigger] call_ensures(fetch, (id,), x)
        ==> (x matches Ok(Some(t)) ==> content_id(t@.content) == id@)
}

/// Besides one thesis for each of `n` listed theses, `emitted` holds one fetched thesis for
/// each identifier of `extra`, these pairwise distinct, each fetched when the identifier of
/// the same place in `asked` was asked for; an emitted thesis refers to each asked
/// identifier, and where `by_id` holds each fetched identifier is the one asked for.
pub open spec fn once_each(emitted: Seq<ThesisView>, n: nat, extra: Seq<Seq<u8>>, asked: Seq<Seq<u8>>, by_id: bool) -> bool {
    &&& emitted.len() == n + extra.len()
    &&& extra.no_duplicates()
    &&& asked.len() == extra.len()
    &&& forall|a: int| 0 <= a < asked.len() ==> #[trigger] referred_in(emitted, asked[a])
    &&& by_id ==> asked == extra
}

/// When no emitted thesis refers to anything, the backup emits exactly one thesis for each
/// listed one.
pub proof fn lemma_no_references_once(emitted: Seq<ThesisView>, n: nat, extra: Seq<Seq<u8>>, asked: Seq<Seq<u8>>, by_id: bool)
    requires
        once_each(emitted, n, extra, asked, by_id),
        forall|i: int| 0 <= i < emitted.len() ==> content_references((#[trigger] emitted[i]).content).len() == 0,
    ensures
        emitted.len() == n,
{
    if extra.len() > 0 {
        assert(referred_in(emitted, asked[0]));
        let i = choose|i: int| 0 <= i < emitted.len() && content_references((#[trigger] emitted[i]).content).contains(asked[0]);
    }
}

/// The thesis is one of `all`, or one that `fetch` found.
pub open spec fn sourced<F: Fn(&DocumentId) -> Result<Option<Thesis>, WoolError>>(all: Seq<ThesisView>, fetch: F, t: ThesisView) -> bool {
    ||| all.contains(t)
    ||| exists|id: &DocumentId, x: Thesis| #[trigger] call_ensures(fetch, (id,), Ok(Some(x))) && x@ == t
}

/// The references still to visit on each frame are references of the frame's thesis.
pub open spec fn frames_refer(stack: Seq<(Thesis, Vec<DocumentId>)>) -> bool {
    forall|f: int, q: int|
        0 <= f < stack.len() && 0 <= q < stack[f].1@.len() ==> content_references(stack[f].0@.content).contains(
            #[trigger] stack[f].1@[q]@,
        )
}

/// Each fetched identifier is referred to by an emitted thesis or one on the stack.
pub open spec fn fetched_referred(emitted: Seq<ThesisView>, stack: Seq<(Thesis, Vec<DocumentId>)>, ids: Seq<Seq<u8>>) -> bool {
    forall|a: int| 0 <= a < ids.len() ==> referred_in(emitted, #[trigger] ids[a]) || referred_in(frames_view(stack), ids[a])
}

proof fn lemma_referred_grow(ts: Seq<ThesisView>, t: ThesisView, x: Seq<u8>)
    requires
        referred_in(ts, x),
    ensures
        referred_in(ts.push(t), x),
{
    let i = choose|i: int| 0 <= i < ts.len() && content_references((#[trigger] ts[i]).content).contains(x);
    assert(ts.push(t)[i] == ts[i]);
}

proof fn lemma_referred_last(ts: Seq<ThesisView>, t: ThesisView, x: Seq<u8>)
    requires
        content_references(t.content).contains(x),
    ensures
        referred_in(ts.push(t), x),
{
    assert(ts.push(t)[ts.len() as int] == t);
}

/// The frame on top has had its last reference visited.
pub open spec fn top_visited(before: Seq<(Thesis, Vec<DocumentId>)>, t: Thesis, r: Vec<DocumentId>) -> bool {
    &&& before.len() > 0
    &&& before.last().0 == t
    &&& before.last().1@.len() > 0
    &&& r@ == before.last().1@.drop_last()
}

proof fn lemma_visit_refer(before: Seq<(Thesis, Vec<DocumentId>)>, t: Thesis, r: Vec<DocumentId>)
    requires
        frames_refer(before),
        top_visited(before, t, r),
    ensures
        frames_refer(before.drop_last().push((t, r))),
        content_references(t@.content).contains(before.last().1@.last()@),
{
    let after = before.drop_last().push((t, r));
    let top = before.len() - 1;
    assert forall|f: int, q: int|
        0 <= f < after.len() && 0 <= q < after[f].1@.len() implies content_references(after[f].0@.content).contains(
            #[trigger] after[f].1@[q]@,
        ) by {
        if f < top {
            assert(after[f] == before[f]);
        } else {
            assert(after[f].1@[q] == before[top].1@[q]);
        }
    }
    assert(before[top].1@.last() == before[top].1@[before[top].1@.len() - 1]);
}

proof fn lemma_descend_counts(
    before: Seq<(Thesis, Vec<DocumentId>)>,
    t: Thesis,
    r: Vec<DocumentId>,
    nf: (Thesis, Vec<DocumentId>),
    emitted: Seq<ThesisView>,
    ids_before: Seq<DocumentId>,
    new_id: DocumentId,
    asked: Seq<Seq<u8>>,
)
    requires
        frames_refer(before),
        top_visited(before, t, r),
        ids_view(nf.1@) == content_references(nf.0@.content),
        ids_view(ids_before).no_duplicates(),
        forall|j: int| 0 <= j < ids_before.len() ==> (#[trigger] ids_before[j])@ != new_id@,
        fetched_referred(emitted, before, asked),
    ensures
        frames_refer(before.drop_last().push((t, r)).push(nf)),
        ids_view(ids_before.push(new_id)).no_duplicates(),
        fetched_referred(emitted, before.drop_last().push((t, r)).push(nf), asked.push(before.last().1@.last()@)),
{
    lemma_visit_refer(before, t, r);
    let mid = before.drop_last().push((t, r));
    let after = mid.push(nf);
    assert forall|f: int, q: int|
        0 <= f < after.len() && 0 <= q < after[f].1@.len() implies content_references(after[f].0@.content).contains(
            #[trigger] after[f].1@[q]@,
        ) by {
        if f < mid.len() {
            assert(after[f] == mid[f]);
        } else {
            assert(ids_view(nf.1@)[q] == nf.1@[q]@);
        }
    }
    let i0 = ids_view(ids_before);
    let i1 = ids_view(ids_before.push(new_id));
    assert(i1 =~= i0.push(new_id@));
    assert forall|x: int, y: int| 0 <= x < i1.len() && 0 <= y < i1.len() && x != y implies i1[x] != i1[y] by {
        if x == i0.len() {
            assert(i1[y] == ids_before[y]@);
        } else if y == i0.len() {
            assert(i1[x] == ids_before[x]@);
        } else {
            assert(i1[x] == i0[x] && i1[y] == i0[y]);
        }
    }
    assert(frames_view(mid) =~= frames_view(before));
    assert(frames_view(after) =~= frames_view(before).push(nf.0@));
    let a1 = asked.push(before.last().1@.last()@);
    assert forall|a: int| 0 <= a < a1.len() implies referred_in(emitted, #[trigger] a1[a]) || referred_in(
        frames_view(after),
        a1[a],
    ) by {
        if a < asked.len() {
            assert(a1[a] == asked[a]);
            if referred_in(frames_view(before), asked[a]) {
                lemma_referred_grow(frames_view(before), nf.0@, asked[a]);
            }
        } else {
            let top = before.len() - 1;
            assert(frames_view(after)[top] == t@);
            assert(content_references(frames_view(after)[top].content).contains(a1[a]));
        }
    }
}

/// Every answer of `fetch` is a thesis: it neither fails nor finds nothing.
pub open spec fn always_finds<F: Fn(&DocumentId) -> Result<Option<Thesis>, WoolError>>(fetch: F) -> bool {
    forall|id: &DocumentId, x: Result<Option<Thesis>, WoolError>| #[trigger] call_ensures(fetch, (id,), x)
        ==> x matches Ok(Some(_))
}

/// Every thesis of `all`, each preceded by the theses it refers to (depth first, each
/// referred thesis fetched once), as the commands that recreate them. `fetch` is asked for
/// referred theses; the backup fails only when `fetch` fails or finds no thesis. Each
/// thesis of `all` is emitted once as listed, and besides those only one thesis for each
/// fetched identifier, no identifier twice.
pub fn backup_commands<F: Fn(&DocumentId) -> Result<Option<Thesis>, WoolError>>(all: &Vec<Thesis>, fetch: F) -> (r: Result<Vec<Command>, WoolError>)
    requires
        forall|id: &DocumentId| #[trigger] fetch.requires((id,)),
    ensures
        r matches Ok(c) ==> exists|emitted: Seq<ThesisView>| #[trigger] backs_up(theses_view(all@), emitted, commands_view(c@))
            && ((exists|rank: spec_fn(Seq<u8>) -> nat| fetches_ranked(fetch, rank)) ==> referred_first(emitted))
            && exists|extra: Seq<Seq<u8>>, asked: Seq<Seq<u8>>| #[trigger] once_each(emitted, all@.len(), extra, asked, fetches_by_id(fetch))
            && forall|i: int| 0 <= i < emitted.len() ==> sourced(theses_view(all@), fetch, #[trigger] emitted[i]),
        always_finds(fetch) ==> r is Ok,
{
    let mut result: Vec<Command> = Vec::new();
    let mut already_got_theses_ids: Vec<DocumentId> = Vec::new();
    let mut stack: Vec<(Thesis, Vec<DocumentId>)> = Vec::new();
    let mut k: usize = 0;
    let ghost mut emitted: Seq<ThesisView> = seq![];
    let ghost mut seen: Set<int> = Set::empty();
    let ghost bound: int = pow256(16);
    let ghost ranked = exists|rank: spec_fn(Seq<u8>) -> nat| fetches_ranked(fetch, rank);
    let ghost rank = choose|rank: spec_fn(Seq<u8>) -> nat| fetches_ranked(fetch, rank);
    let ghost by_id = fetches_by_id(fetch);
    let ghost mut asked: Seq<Seq<u8>> = seq![];
    proof {
        lemma_pow256_positive(16);
        lemma_int_range(0, bound);
        lemma_walk_empty(rank);
        assert(walk_view(stack@) =~= seq![]);
        assert(ids_view(already_got_theses_ids@) =~= seq![]);
    }
    assert(commands_view(result@) =~= concat_commands(emitted));
    loop
        invariant
            k <= all@.len(),
            forall|id: &DocumentId| #[trigger] fetch.requires((id,)),
            commands_view(result@) == concat_commands(emitted),
            bound == pow256(16),
            set_int_range(0, bound).finite(),
            set_int_range(0, bound).len() == bound,
            seen.subset_of(set_int_range(0, bound)),
            seen.finite(),
            seen.len() == already_got_theses_ids@.len(),
            forall|v: int| #[trigger] seen.contains(v) ==> exists|j: int|
                0 <= j < already_got_theses_ids@.len() && v == bytes_number(already_got_theses_ids@[j]@),
            already_got_theses_ids@.len() <= bound,
            forall|j: int| 0 <= j < k ==> emitted.contains(#[trigger] theses_view(all@)[j]) || frames_view(stack@).contains(theses_view(all@)[j]),
            ranked ==> fetches_ranked(fetch, rank),
            ranked ==> walk_inv(walk_view(stack@), emitted, ids_view(already_got_theses_ids@), rank),
            emitted.len() + stack@.len() == k + already_got_theses_ids@.len(),
            ids_view(already_got_theses_ids@).no_duplicates(),
            frames_refer(stack@),
            fetched_referred(emitted, stack@, asked),
            asked.len() == already_got_theses_ids@.len(),
            by_id ==> asked == ids_view(already_got_theses_ids@),
            by_id == fetches_by_id(fetch),
            forall|i: int| 0 <= i < emitted.len() ==> sourced(theses_view(all@), fetch, #[trigger] emitted[i]),
            forall|f: int| 0 <= f < stack@.len() ==> sourced(theses_view(all@), fetch, #[trigger] stack@[f].0@),
        ensures
            stack@.len() == 0,
            k == all@.len(),
        decreases all@.len() - k, bound - already_got_theses_ids@.len(), pending(stack@),
    {
        let ghost before = stack@;
        let ghost emitted0 = emitted;
        let ghost k0 = k;
        let ghost n0 = already_got_theses_ids@.len();
        let ghost wv0 = walk_view(stack@);
        let ghost ids0 = ids_view(already_got_theses_ids@);
        proof {
            lemma_pending_nonneg(stack@);
        }
        match stack.pop() {
            Some((thesis, refs)) => {
                assert(stack@ =~= before.drop_last());
                assert(frames_view(before) =~= frames_view(stack@).push(thesis@));
                let mut refs = refs;
                let ghost refs0 = refs@;
                proof {
                    assert(wv0.last() == (thesis@, ids_view(refs0)));
                    assert(walk_view(stack@) =~= wv0.drop_last());
                }
                match refs.pop() {
                    Some(reference) => {
                        let fetch_result = fetch(&reference);
                        let fetched = fetch_result?;
                        match fetched {
                            Some(new_thesis) => {
                                let new_thesis_id = new_thesis.id();
                                if !contains_id(&already_got_theses_ids, &new_thesis_id) {
                                    proof {
                                        let n = bytes_number(new_thesis_id@);
                                        assert(new_thesis_id@.len() == 16);
                                        lemma_bytes_number_bound(new_thesis_id@);
                                        if seen.contains(n) {
                                            let j = choose|j: int| 0 <= j < already_got_theses_ids@.len() && n == bytes_number(already_got_theses_ids@[j]@);
                                            lemma_bytes_number_injective(new_thesis_id@, already_got_theses_ids@[j]@);
                                            assert(false);
                                        }
                                        let seen_before = seen;
                                        assert(set_int_range(0, bound).contains(n));
                                        seen = seen.insert(n);
                                        assert(seen.len() == seen_before.len() + 1);
                                        assert(seen.subset_of(set_int_range(0, bound)));
                                        lemma_len_subset(seen, set_int_range(0, bound));
                                        assert(seen.len() <= bound);
                                    }
                                    let ghost ids_before = already_got_theses_ids@;
                                    already_got_theses_ids.push(new_thesis_id);
                                    proof {
                                        assert forall|v: int| #[trigger] seen.contains(v) implies exists|j: int|
                                            0 <= j < already_got_theses_ids@.len() && v == bytes_number(already_got_theses_ids@[j]@) by {
                                            if v == bytes_number(new_thesis_id@) {
                                                assert(already_got_theses_ids@[already_got_theses_ids@.len() - 1] == new_thesis_id);
                                            } else {
                                                let j = choose|j: int| 0 <= j < ids_before.len() && v == bytes_number(ids_before[j]@);
                                                assert(already_got_theses_ids@[j] == ids_before[j]);
                                            }
                                        }
                                    }
                                    let new_thesis_references = new_thesis.references();
                                    let ghost new_view = new_thesis@;
                                    stack.push((thesis, refs));
                                    stack.push((new_thesis, new_thesis_references));
                                    proof {
                                        assert(ids_view(refs@) =~= ids_view(refs0).drop_last());
                                        if ranked {
                                            assert(wv0.last().1 =~= ids_view(refs@).push(reference@));
                                            lemma_walk_descend(wv0, emitted, ids0, rank, new_view);
                                            let s1 = walk_view(stack@).drop_last();
                                            assert(s1.drop_last() =~= wv0.drop_last());
                                            assert(s1.last() == visit_top(wv0).last());
                                            assert(s1 =~= visit_top(wv0));
                                            assert(walk_view(stack@) =~= visit_top(wv0).push((new_view, content_references(new_view.content))));
                                            assert(ids_view(already_got_theses_ids@) =~= ids0.push(content_id(new_view.content)));
                                        }
                                    }
                                    assert(already_got_theses_ids@.len() <= bound);
                                    assert(frames_view(stack@) =~= frames_view(before).push(new_thesis@));
                                    assert forall|f: int| 0 <= f < stack@.len() implies sourced(theses_view(all@), fetch, #[trigger] stack@[f].0@) by {
                                        if f < before.len() {
                                            assert(stack@[f].0 == before[f].0);
                                        } else {
                                            assert(fetch_result == Ok::<Option<Thesis>, WoolError>(Some(new_thesis)));
                                            assert(call_ensures(fetch, (&reference,), Ok::<Option<Thesis>, WoolError>(Some(new_thesis))));
                                            assert(stack@[f].0 == new_thesis);
                                        }
                                    }
                                    proof {
                                        assert(stack@ == before.drop_last().push((thesis, refs)).push((new_thesis, new_thesis_references)));
                                        assert(reference@ == refs0.last()@);
                                        lemma_descend_counts(
                                            before,
                                            thesis,
                                            refs,
                                            (new_thesis, new_thesis_references),
                                            emitted,
                                            ids_before,
                                            new_thesis_id,
                                            asked,
                                        );
                                        if by_id {
                                            assert(call_ensures(fetch, (&reference,), fetch_result));
                                            assert(content_id(new_thesis@.content) == reference@);
                                            assert(ids_view(already_got_theses_ids@) =~= ids_view(ids_before).push(new_thesis_id@));
                                        }
                                        asked = asked.push(reference@);
                                    }
                                    assert forall|j: int| 0 <= j < k implies emitted.contains(#[trigger] theses_view(all@)[j]) || frames_view(stack@).contains(theses_view(all@)[j]) by {
                                        if frames_view(before).contains(theses_view(all@)[j]) {
                                            let f = choose|f: int| 0 <= f < frames_view(before).len() && frames_view(before)[f] == theses_view(all@)[j];
                                            assert(frames_view(stack@)[f] == theses_view(all@)[j]);
                                        }
                                    }
                                    assert(decreases_to!(all@.len() - k0, bound - n0, pending(before) => all@.len() - k, bound - already_got_theses_ids@.len(), pending(stack@)));
                                } else {
                                    let ghost refs_len = refs@.len();
                                    proof {
                                        assert(ids_view(refs@) =~= ids_view(refs0).drop_last());
                                        if ranked {
                                            let a = choose|j: int| 0 <= j < ids0.len() && (#[trigger] already_got_theses_ids@[j])@ == new_thesis_id@;
                                            assert(wv0.last().1 =~= ids_view(refs@).push(reference@));
                                            lemma_walk_seen(wv0, emitted, ids0, rank, a);
                                        }
                                    }
                                    stack.push((thesis, refs));
                                    proof {
                                        if ranked {
                                            assert(walk_view(stack@).drop_last() =~= wv0.drop_last());
                                            assert(walk_view(stack@).last() == visit_top(wv0).last());
                                            assert(walk_view(stack@) =~= visit_top(wv0));
                                        }
                                    }
                                    assert(stack@.drop_last() =~= before.drop_last());
                                    assert(frames_view(stack@) =~= frames_view(before));
                                    proof {
                                        assert(stack@ == before.drop_last().push((thesis, refs)));
                                        lemma_visit_refer(before, thesis, refs);
                                        assert forall|f: int| 0 <= f < stack@.len() implies sourced(theses_view(all@), fetch, #[trigger] stack@[f].0@) by {
                                            assert(stack@[f].0 == before[f].0);
                                        }
                                    }
                                    assert(pending(stack@) == pending(before.drop_last()) + 1 + refs_len);
                                    assert(pending(before) == pending(before.drop_last()) + 1 + refs_len + 1);
                                    proof { lemma_pending_nonneg(stack@); }
                                    assert(decreases_to!(all@.len() - k0, bound - n0, pending(before) => all@.len() - k, bound - already_got_theses_ids@.len(), pending(stack@)));
                                }
                            },
                            None => {
                                return Err(WoolError::UnknownThesis(reference.to_string()));
                            },
                        }
                    },
                    None => {
                        assert(pending(before) == pending(before.drop_last()) + 1);
                        let commands = thesis.to_commands();
                        push_commands(&mut result, commands);
                        proof { lemma_pending_nonneg(stack@); }
                        assert(decreases_to!(all@.len() - k0, bound - n0, pending(before) => all@.len() - k, bound - already_got_theses_ids@.len(), pending(stack@)));
                        proof {
                            if ranked {
                                assert(wv0.last().1 =~= seq![]);
                                lemma_walk_emit(wv0, emitted, ids0, rank);
                                assert(walk_view(stack@) =~= wv0.drop_last());
                            }
                            let e2 = emitted.push(thesis@);
                            assert(e2.drop_last() =~= emitted);
                            assert(frames_refer(stack@)) by {
                                assert forall|f: int, q: int|
                                    0 <= f < stack@.len() && 0 <= q < stack@[f].1@.len() implies content_references(
                                        stack@[f].0@.content,
                                    ).contains(#[trigger] stack@[f].1@[q]@) by {
                                    assert(stack@[f] == before[f]);
                                }
                            }
                            {
                                let ids = asked;
                                assert forall|a: int| 0 <= a < ids.len() implies referred_in(e2, #[trigger] ids[a])
                                    || referred_in(frames_view(stack@), ids[a]) by {
                                    if referred_in(emitted, ids[a]) {
                                        lemma_referred_grow(emitted, thesis@, ids[a]);
                                    } else {
                                        let f = choose|f: int| 0 <= f < frames_view(before).len() && content_references(
                                            (#[trigger] frames_view(before)[f]).content,
                                        ).contains(ids[a]);
                                        if f == frames_view(before).len() - 1 {
                                            assert(e2[emitted.len() as int] == frames_view(before)[f]);
                                        } else {
                                            assert(frames_view(stack@)[f] == frames_view(before)[f]);
                                        }
                                    }
                                }
                            }
                            assert forall|i: int| 0 <= i < e2.len() implies sourced(theses_view(all@), fetch, #[trigger] e2[i]) by {
                                if i < emitted.len() {
                                    assert(e2[i] == emitted[i]);
                                } else {
                                    assert(e2[i] == before[before.len() - 1].0@);
                                }
                            }
                            assert forall|f: int| 0 <= f < stack@.len() implies sourced(theses_view(all@), fetch, #[trigger] stack@[f].0@) by {
                                assert(stack@[f] == before[f]);
                            }
                            emitted = e2;
                            assert forall|j: int| 0 <= j < k implies emitted.contains(#[trigger] theses_view(all@)[j]) || frames_view(stack@).contains(theses_view(all@)[j]) by {
                                let x = theses_view(all@)[j];
                                if emitted0.contains(x) {
                                    let i = choose|i: int| 0 <= i < emitted0.len() && emitted0[i] == x;
                                    assert(emitted[i] == x);
                                } else {
                                    let f = choose|f: int| 0 <= f < frames_view(before).len() && frames_view(before)[f] == x;
                                    if f == frames_view(before).len() - 1 {
                                        assert(emitted[emitted.len() - 1] == x);
                                    } else {
                                        assert(frames_view(stack@)[f] == x);
                                    }
                                }
                            }
                        }
                    },
                }
            },
            None => {
                if k < all.len() {
                    let thesis = all[k].clone();
                    let thesis_references = thesis.references();
                    let ghost start_view = thesis@;
                    stack.push((thesis, thesis_references));
                    proof {
                        if ranked {
                            assert(wv0 =~= seq![]);
                            lemma_walk_start(start_view, emitted, ids0, rank);
                            assert(walk_view(stack@) =~= seq![(start_view, content_references(start_view.content))]);
                        }
                    }
                    assert(frames_view(stack@) =~= frames_view(before).push(theses_view(all@)[k as int]));
                    assert(frames_view(stack@)[frames_view(before).len() as int] == theses_view(all@)[k as int]);
                    proof {
                        assert(before.len() == 0);
                        assert forall|f: int| 0 <= f < stack@.len() implies sourced(theses_view(all@), fetch, #[trigger] stack@[f].0@) by {
                            assert(stack@[f].0@ == theses_view(all@)[k as int]);
                            assert(theses_view(all@).contains(theses_view(all@)[k as int]));
                        }
                        assert forall|f: int, q: int|
                            0 <= f < stack@.len() && 0 <= q < stack@[f].1@.len() implies content_references(
                                stack@[f].0@.content,
                            ).contains(#[trigger] stack@[f].1@[q]@) by {
                            assert(ids_view(stack@[f].1@)[q] == stack@[f].1@[q]@);
                        }
                        {
                            let ids = asked;
                            assert forall|a: int| 0 <= a < ids.len() implies referred_in(emitted, #[trigger] ids[a])
                                || referred_in(frames_view(stack@), ids[a]) by {
                                if !referred_in(emitted, ids[a]) {
                                    let f = choose|f: int| 0 <= f < frames_view(before).len() && content_references(
                                        (#[trigger] frames_view(before)[f]).content,
                                    ).contains(ids[a]);
                                }
                            }
                        }
                    }
                    k = k + 1;
                    proof { lemma_pending_nonneg(stack@); }
                    assert(decreases_to!(all@.len() - k0, bound - n0, pending(before) => all@.len() - k, bound - already_got_theses_ids@.len(), pending(stack@)));
                } else {
                    break;
                }
            },
        }
    }
    assert(stack@.len() == 0);
    assert forall|j: int| 0 <= j < all@.len() implies emitted.contains(#[trigger] theses_view(all@)[j]) by {
        if frames_view(stack@).contains(theses_view(all@)[j]) {
            let f = choose|f: int| 0 <= f < frames_view(stack@).len() && frames_view(stack@)[f] == theses_view(all@)[j];
        }
    }
    assert(backs_up(theses_view(all@), emitted, commands_view(result@)));
    proof {
        if ranked {
            lemma_walk_done(walk_view(stack@), emitted, ids_view(already_got_theses_ids@), rank);
        }
    }
    proof {
        let extra = ids_view(already_got_theses_ids@);
        assert forall|a: int| 0 <= a < asked.len() implies #[trigger] referred_in(emitted, asked[a]) by {
            if referred_in(frames_view(stack@), asked[a]) {
                let f = choose|f: int| 0 <= f < frames_view(stack@).len() && content_references(
                    (#[trigger] frames_view(stack@)[f]).content,
                ).contains(asked[a]);
            }
        }
        assert(once_each(emitted, all@.len(), extra, asked, by_id));
    }
    let r = Ok(result);
    assert(r matches Ok(c) && backs_up(theses_view(all@), emitted, commands_view(c@)) && (ranked ==> referred_first(emitted)));
    r
}

} // verus!
