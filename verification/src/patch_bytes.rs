//! Applying patches to a chunk's bytes, and taking them back.
use crate::delta::patch_list;
use vstd::prelude::*;

verus! {

pub open spec fn max_nat(a: nat, b: nat) -> nat {
    if a >= b {
        a
    } else {
        b
    }
}

/// One past the last byte that a patch writes.
pub open spec fn patch_end(p: (usize, Seq<u8>)) -> nat {
    p.0 as nat + p.1.len()
}

/// No patch reaches past what a buffer can hold.
pub open spec fn patches_fit(patches: Seq<(usize, Seq<u8>)>) -> bool {
    forall|k: int| 0 <= k < patches.len() ==> patch_end(#[trigger] patches[k]) <= usize::MAX
}

/// The patch writes the byte at `i`.
pub open spec fn covers(p: (usize, Seq<u8>), i: int) -> bool {
    p.0 <= i < patch_end(p)
}

/// The length of a buffer once it holds every patch.
pub open spec fn needed_len(len: nat, patches: Seq<(usize, Seq<u8>)>) -> nat
    decreases patches.len(),
{
    if patches.len() == 0 {
        len
    } else {
        max_nat(needed_len(len, patches.drop_last()), patch_end(patches.last()))
    }
}

/// The byte at `i` after the patches: that of the last patch that writes it, else the buffer's,
/// else zero.
pub open spec fn byte_after(buf: Seq<u8>, patches: Seq<(usize, Seq<u8>)>, i: int) -> u8
    decreases patches.len(),
{
    if patches.len() == 0 {
        if 0 <= i < buf.len() {
            buf[i]
        } else {
            0
        }
    } else if covers(patches.last(), i) {
        patches.last().1[i - patches.last().0]
    } else {
        byte_after(buf, patches.drop_last(), i)
    }
}

/// The buffer after the patches were written over it in order. It grows with zeros where a patch
/// reaches past its end.
pub open spec fn patched(buf: Seq<u8>, patches: Seq<(usize, Seq<u8>)>) -> Seq<u8> {
    Seq::new(needed_len(buf.len(), patches), |i: int| byte_after(buf, patches, i))
}

/// The buffer with zeros behind it, up to the length that the patches need.
pub open spec fn grown(buf: Seq<u8>, patches: Seq<(usize, Seq<u8>)>) -> Seq<u8> {
    Seq::new(
        needed_len(buf.len(), patches),
        |i: int|
            if i < buf.len() {
                buf[i]
            } else {
                0
            },
    )
}

/// For each patch, what stood in its place when it was written.
pub open spec fn undo_list(buf: Seq<u8>, patches: Seq<(usize, Seq<u8>)>) -> Seq<
    (usize, Seq<u8>),
> {
    Seq::new(
        patches.len(),
        |k: int|
            (
                patches[k].0,
                Seq::new(
                    patches[k].1.len(),
                    |i: int| byte_after(buf, patches.take(k), patches[k].0 + i),
                ),
            ),
    )
}

pub(crate) proof fn needed_len_bounds(len: nat, patches: Seq<(usize, Seq<u8>)>)
    ensures
        needed_len(len, patches) >= len,
        forall|k: int|
            0 <= k < patches.len() ==> needed_len(len, patches) >= patch_end(#[trigger] patches[k]),
        patches_fit(patches) && len <= usize::MAX ==> needed_len(len, patches) <= usize::MAX,
    decreases patches.len(),
{
    if patches.len() > 0 {
        let init = patches.drop_last();
        needed_len_bounds(len, init);
        assert forall|k: int| 0 <= k < patches.len() implies needed_len(len, patches) >= patch_end(
            #[trigger] patches[k],
        ) by {
            if k < init.len() {
                assert(init[k] == patches[k]);
            }
        }
        if patches_fit(patches) {
            assert(patches_fit(init)) by {
                assert forall|k: int| 0 <= k < init.len() implies patch_end(#[trigger] init[k])
                    <= usize::MAX by {
                    assert(patch_end(patches[k]) <= usize::MAX);
                }
            }
        }
    }
}

pub(crate) proof fn needed_len_prefix(len: nat, patches: Seq<(usize, Seq<u8>)>, k: int)
    requires
        0 <= k <= patches.len(),
    ensures
        needed_len(len, patches.take(k)) <= needed_len(len, patches),
    decreases patches.len() - k,
{
    if k == patches.len() {
        assert(patches.take(k) =~= patches);
    } else {
        assert(patches.take(k + 1).drop_last() =~= patches.take(k));
        needed_len_prefix(len, patches, k + 1);
    }
}

/// Nothing but zeros stands past the end of a patched buffer.
proof fn byte_after_past_end(buf: Seq<u8>, patches: Seq<(usize, Seq<u8>)>, i: int)
    requires
        i >= needed_len(buf.len(), patches),
    ensures
        byte_after(buf, patches, i) == 0,
    decreases patches.len(),
{
    if patches.len() > 0 {
        byte_after_past_end(buf, patches.drop_last(), i);
    } else {
    }
}

/// Growing the buffer first and then patching it comes to the same.
pub proof fn growing_first_changes_nothing(buf: Seq<u8>, patches: Seq<(usize, Seq<u8>)>)
    ensures
        patched(grown(buf, patches), patches) == patched(buf, patches),
{
    let g = grown(buf, patches);
    needed_len_bounds(buf.len(), patches);
    growing_keeps_len(buf.len(), g.len(), patches);
    assert forall|i: int| 0 <= i implies byte_after(g, patches, i) == byte_after(
        buf,
        patches,
        i,
    ) by {
        growing_keeps_bytes(buf, g, patches, i);
    }
    assert(patched(g, patches) =~= patched(buf, patches));
}

pub(crate) proof fn growing_keeps_len(len: nat, more: nat, patches: Seq<(usize, Seq<u8>)>)
    requires
        len <= more <= needed_len(len, patches),
    ensures
        needed_len(more, patches) == needed_len(len, patches),
    decreases patches.len(),
{
    if patches.len() > 0 {
        let init = patches.drop_last();
        if more <= needed_len(len, init) {
            growing_keeps_len(len, more, init);
        } else {
            short_patches(more, init, len);
        }
    }
}

/// Patches that reach no further than the buffer leave its length.
pub(crate) proof fn short_patches(more: nat, patches: Seq<(usize, Seq<u8>)>, len: nat)
    requires
        needed_len(len, patches) <= more,
    ensures
        needed_len(more, patches) == more,
    decreases patches.len(),
{
    if patches.len() > 0 {
        short_patches(more, patches.drop_last(), len);
    }
}

proof fn growing_keeps_bytes(buf: Seq<u8>, g: Seq<u8>, patches: Seq<(usize, Seq<u8>)>, i: int)
    requires
        g.len() >= buf.len(),
        forall|j: int|
            0 <= j < g.len() ==> #[trigger] g[j] == (if j < buf.len() {
                buf[j]
            } else {
                0u8
            }),
        0 <= i,
    ensures
        byte_after(g, patches, i) == byte_after(buf, patches, i),
    decreases patches.len(),
{
    if patches.len() > 0 {
        growing_keeps_bytes(buf, g, patches.drop_last(), i);
    }
}

/// The first patch of a list that writes a byte.
proof fn first_covering(patches: Seq<(usize, Seq<u8>)>, i: int) -> (k: int)
    requires
        exists|k: int| 0 <= k < patches.len() && covers(#[trigger] patches[k], i),
    ensures
        0 <= k < patches.len(),
        covers(patches[k], i),
        forall|j: int| 0 <= j < k ==> !covers(#[trigger] patches[j], i),
    decreases patches.len(),
{
    let init = patches.drop_last();
    if exists|k: int| 0 <= k < init.len() && covers(#[trigger] init[k], i) {
        let k = first_covering(init, i);
        assert forall|j: int| 0 <= j < k implies !covers(#[trigger] patches[j], i) by {
            assert(init[j] == patches[j]);
        }
        k
    } else {
        let k = choose|k: int| 0 <= k < patches.len() && covers(#[trigger] patches[k], i);
        assert(k == patches.len() - 1) by {
            if k < init.len() {
                assert(covers(init[k], i));
            }
        }
        assert forall|j: int| 0 <= j < k implies !covers(#[trigger] patches[j], i) by {
            assert(init[j] == patches[j]);
        }
        k
    }
}

/// A byte that some patch writes does not depend on what it is written over.
pub(crate) proof fn covered_byte(
    one: Seq<u8>,
    other: Seq<u8>,
    patches: Seq<(usize, Seq<u8>)>,
    i: int,
)
    requires
        exists|k: int| 0 <= k < patches.len() && covers(#[trigger] patches[k], i),
    ensures
        byte_after(one, patches, i) == byte_after(other, patches, i),
    decreases patches.len(),
{
    if !covers(patches.last(), i) {
        let k = choose|k: int| 0 <= k < patches.len() && covers(#[trigger] patches[k], i);
        let init = patches.drop_last();
        assert(init[k] == patches[k]);
        covered_byte(one, other, init, i);
    }
}

pub(crate) proof fn uncovered_byte(buf: Seq<u8>, patches: Seq<(usize, Seq<u8>)>, i: int)
    requires
        forall|k: int| 0 <= k < patches.len() ==> !covers(#[trigger] patches[k], i),
    ensures
        byte_after(buf, patches, i) == byte_after(buf, Seq::<(usize, Seq<u8>)>::empty(), i),
    decreases patches.len(),
{
    if patches.len() > 0 {
        let init = patches.drop_last();
        assert(!covers(patches[patches.len() - 1], i));
        assert forall|k: int| 0 <= k < init.len() implies !covers(#[trigger] init[k], i) by {
            assert(init[k] == patches[k]);
        }
        uncovered_byte(buf, init, i);
    }
}

proof fn last_covering_wins(buf: Seq<u8>, patches: Seq<(usize, Seq<u8>)>, k: int, i: int)
    requires
        0 <= k < patches.len(),
        covers(patches[k], i),
        forall|j: int| k < j < patches.len() ==> !covers(#[trigger] patches[j], i),
    ensures
        byte_after(buf, patches, i) == patches[k].1[i - patches[k].0],
    decreases patches.len(),
{
    if k < patches.len() - 1 {
        let init = patches.drop_last();
        assert(!covers(patches[patches.len() - 1], i));
        assert(init[k] == patches[k]);
        assert forall|j: int| k < j < init.len() implies !covers(#[trigger] init[j], i) by {
            assert(init[j] == patches[j]);
        }
        last_covering_wins(buf, init, k, i);
    }
}

/// Writing the undo list back, last patch first, restores the buffer that the patches were meant
/// for, from any state in which only bytes that some patch writes may have changed. So a write
/// that stopped halfway is taken back as well as one that finished.
pub proof fn undo_restores_any_torn_write(
    buf: Seq<u8>,
    patches: Seq<(usize, Seq<u8>)>,
    torn: Seq<u8>,
)
    requires
        buf.len() <= torn.len() <= needed_len(buf.len(), patches),
        forall|i: int|
            0 <= i < torn.len() && (forall|k: int|
                0 <= k < patches.len() ==> !covers(#[trigger] patches[k], i)) ==> #[trigger] torn[i]
                == grown(buf, patches)[i],
    ensures
        patched(torn, undo_list(buf, patches).reverse()) == grown(buf, patches),
{
    let undo = undo_list(buf, patches);
    let back = undo.reverse();
    let g = grown(buf, patches);
    needed_len_bounds(buf.len(), patches);
    reversed_needs_the_same(buf, patches, torn.len());
    assert(needed_len(torn.len(), back) == g.len());
    assert forall|i: int| 0 <= i < g.len() implies byte_after(torn, back, i) == g[i] by {
        let n = patches.len() as int;
        assert forall|j: int| 0 <= j < n implies covers(#[trigger] back[j], i) == covers(
            patches[n - 1 - j],
            i,
        ) by {
            assert(back[j] == undo[n - 1 - j]);
        }
        if exists|k: int| 0 <= k < patches.len() && covers(#[trigger] patches[k], i) {
            let k = first_covering(patches, i);
            let m = n - 1 - k;
            assert(covers(back[m], i));
            assert forall|j: int| m < j < back.len() implies !covers(#[trigger] back[j], i) by {
                assert(!covers(patches[n - 1 - j], i));
            }
            last_covering_wins(torn, back, m, i);
            assert(back[m] == undo[k]);
            let pre = patches.take(k);
            assert forall|j: int| 0 <= j < pre.len() implies !covers(#[trigger] pre[j], i) by {
                assert(pre[j] == patches[j]);
            }
            uncovered_byte(buf, pre, i);
        } else {
            assert forall|j: int| 0 <= j < back.len() implies !covers(#[trigger] back[j], i) by {
                assert(!covers(patches[n - 1 - j], i));
            }
            uncovered_byte(torn, back, i);
        }
    }
    assert(patched(torn, back) =~= g);
}

proof fn needed_len_by_max(len: nat, patches: Seq<(usize, Seq<u8>)>, m: nat)
    requires
        m >= len,
        forall|k: int| 0 <= k < patches.len() ==> patch_end(#[trigger] patches[k]) <= m,
        m == len || exists|k: int| 0 <= k < patches.len() && patch_end(#[trigger] patches[k]) == m,
    ensures
        needed_len(len, patches) == m,
{
    needed_len_bounds(len, patches);
    needed_len_attained(len, patches);
    if m != len {
        let k = choose|k: int| 0 <= k < patches.len() && patch_end(#[trigger] patches[k]) == m;
        assert(needed_len(len, patches) >= patch_end(patches[k]));
    }
}

proof fn needed_len_attained(len: nat, patches: Seq<(usize, Seq<u8>)>)
    ensures
        needed_len(len, patches) == len || exists|k: int|
            0 <= k < patches.len() && patch_end(#[trigger] patches[k]) == needed_len(len, patches),
    decreases patches.len(),
{
    if patches.len() > 0 {
        let init = patches.drop_last();
        needed_len_attained(len, init);
        if needed_len(len, patches) == patch_end(patches.last()) {
            assert(patch_end(patches[patches.len() - 1]) == needed_len(len, patches));
        } else if needed_len(len, init) != len {
            let k = choose|k: int|
                0 <= k < init.len() && patch_end(#[trigger] init[k]) == needed_len(len, init);
            assert(patch_end(patches[k]) == needed_len(len, patches));
        }
    }
}

proof fn reversed_needs_the_same(buf: Seq<u8>, patches: Seq<(usize, Seq<u8>)>, len: nat)
    requires
        buf.len() <= len <= needed_len(buf.len(), patches),
    ensures
        needed_len(len, undo_list(buf, patches).reverse()) == needed_len(buf.len(), patches),
{
    let undo = undo_list(buf, patches);
    let back = undo.reverse();
    let n = patches.len() as int;
    let m = needed_len(buf.len(), patches);
    needed_len_bounds(buf.len(), patches);
    needed_len_attained(buf.len(), patches);
    assert forall|j: int| 0 <= j < back.len() implies patch_end(#[trigger] back[j]) == patch_end(
        patches[n - 1 - j],
    ) by {
        assert(back[j] == undo[n - 1 - j]);
    }
    if m != len {
        let k = choose|k: int| 0 <= k < patches.len() && patch_end(#[trigger] patches[k]) == m;
        assert(patch_end(back[n - 1 - k]) == m);
    }
    needed_len_by_max(len, back, m);
}

/// A patch that is written back over the patched buffer leaves it as it was: undoing a finished
/// write gives back the grown buffer, and the buffer itself if no patch made it longer.
pub proof fn undo_restores_finished_write(buf: Seq<u8>, patches: Seq<(usize, Seq<u8>)>)
    ensures
        patched(patched(buf, patches), undo_list(buf, patches).reverse()) == grown(buf, patches),
        patched(patched(buf, patches), undo_list(buf, patches).reverse()).take(buf.len() as int)
            == buf,
        needed_len(buf.len(), patches) == buf.len() ==> patched(
            patched(buf, patches),
            undo_list(buf, patches).reverse(),
        ) == buf,
{
    let torn = patched(buf, patches);
    needed_len_bounds(buf.len(), patches);
    assert forall|i: int|
        0 <= i < torn.len() && (forall|k: int|
            0 <= k < patches.len() ==> !covers(#[trigger] patches[k], i)) implies #[trigger] torn[i]
        == grown(buf, patches)[i] by {
        uncovered_byte(buf, patches, i);
    }
    undo_restores_any_torn_write(buf, patches, torn);
    assert(grown(buf, patches).take(buf.len() as int) =~= buf);
    if needed_len(buf.len(), patches) == buf.len() {
        assert(grown(buf, patches) =~= buf);
    }
}

/// Patches that touch no common byte can be written in any order.
pub proof fn disjoint_patches_commute(
    buf: Seq<u8>,
    a: (usize, Seq<u8>),
    b: (usize, Seq<u8>),
)
    requires
        forall|i: int| !(covers(a, i) && covers(b, i)),
    ensures
        patched(buf, seq![a, b]) == patched(buf, seq![b, a]),
{
    let ab = seq![a, b];
    let ba = seq![b, a];
    assert(ab.drop_last() =~= seq![a]);
    assert(ba.drop_last() =~= seq![b]);
    assert(seq![a].drop_last() =~= Seq::<(usize, Seq<u8>)>::empty());
    assert(seq![b].drop_last() =~= Seq::<(usize, Seq<u8>)>::empty());
    reveal_with_fuel(needed_len, 4);
    reveal_with_fuel(byte_after, 4);
    assert forall|i: int| byte_after(buf, ab, i) == byte_after(buf, ba, i) by {
        assert(!(covers(a, i) && covers(b, i)));
    }
    assert(patched(buf, ab) =~= patched(buf, ba));
}

/// Copies `data` over `buf` from `at` on.
fn copy_over(buf: &mut Vec<u8>, at: usize, data: &Vec<u8>)
    requires
        at + data@.len() <= old(buf)@.len(),
    ensures
        final(buf)@ == Seq::new(
            old(buf)@.len(),
            |i: int|
                if at <= i < at + data@.len() {
                    data@[i - at]
                } else {
                    old(buf)@[i]
                },
        ),
{
    let n: usize = buf.len();
    let mut j: usize = 0;
    while j < data.len()
        invariant
            j <= data@.len(),
            n == old(buf)@.len(),
            at + data@.len() <= n,
            buf@ =~= Seq::new(
                old(buf)@.len(),
                |i: int|
                    if at <= i < at + j {
                        data@[i - at]
                    } else {
                        old(buf)@[i]
                    },
            ),
        decreases data@.len() - j,
    {
        buf.set(at + j, data[j]);
        j += 1;
    }
}

fn copy_out(buf: &Vec<u8>, at: usize, len: usize) -> (r: Vec<u8>)
    requires
        at + len <= buf@.len(),
    ensures
        r@ == buf@.subrange(at as int, at + len),
{
    let n: usize = buf.len();
    let mut out: Vec<u8> = Vec::new();
    let mut j: usize = 0;
    while j < len
        invariant
            j <= len,
            n == buf@.len(),
            at + len <= n,
            out@ =~= buf@.subrange(at as int, at + j),
        decreases len - j,
    {
        out.push(buf[at + j]);
        j += 1;
    }
    out
}

/// The length that a buffer of `len` bytes needs for the patches.
pub fn needed_len_exec(len: usize, patches: &Vec<(usize, Vec<u8>)>) -> (n: usize)
    requires
        patches_fit(patch_list(patches@)),
    ensures
        n == needed_len(len as nat, patch_list(patches@)),
{
    let ghost ps = patch_list(patches@);
    let mut n: usize = len;
    let mut k: usize = 0;
    assert(ps.take(0) =~= Seq::<(usize, Seq<u8>)>::empty());
    while k < patches.len()
        invariant
            k <= patches@.len(),
            ps == patch_list(patches@),
            patches_fit(ps),
            n == needed_len(len as nat, ps.take(k as int)),
        decreases patches@.len() - k,
    {
        proof {
            assert(ps.take(k + 1).drop_last() =~= ps.take(k as int));
            assert(ps.take(k + 1).last() == ps[k as int]);
            assert(ps[k as int] == (patches@[k as int].0, patches@[k as int].1@));
            assert(patch_end(ps[k as int]) <= usize::MAX);
        }
        let end: usize = patches[k].0 + patches[k].1.len();
        if end > n {
            n = end;
        }
        k += 1;
    }
    assert(ps.take(k as int) =~= ps);
    n
}

/// Whether no patch reaches past what a buffer can hold.
pub fn patches_fit_exec(patches: &Vec<(usize, Vec<u8>)>) -> (r: bool)
    ensures
        r == patches_fit(patch_list(patches@)),
{
    let ghost ps = patch_list(patches@);
    let mut k: usize = 0;
    while k < patches.len()
        invariant
            k <= patches@.len(),
            ps == patch_list(patches@),
            forall|j: int| 0 <= j < k ==> patch_end(#[trigger] ps[j]) <= usize::MAX,
        decreases patches@.len() - k,
    {
        assert(ps[k as int] == (patches@[k as int].0, patches@[k as int].1@));
        if patches[k].1.len() > usize::MAX - patches[k].0 {
            assert(patch_end(ps[k as int]) > usize::MAX);
            return false;
        }
        k += 1;
    }
    true
}

/// Writes the patches over the buffer in order, and keeps for each what stood in its place.
pub fn rewrite(buf: Vec<u8>, patches: &Vec<(usize, Vec<u8>)>) -> (r: (
    Vec<u8>,
    Vec<(usize, Vec<u8>)>,
))
    requires
        patches_fit(patch_list(patches@)),
    ensures
        r.0@ == patched(buf@, patch_list(patches@)),
        patch_list(r.1@) == undo_list(buf@, patch_list(patches@)),
{
    let ghost ps = patch_list(patches@);
    let ghost b0 = buf@;
    let n: usize = needed_len_exec(buf.len(), patches);
    let mut out: Vec<u8> = buf;
    let ghost whole = grown(b0, ps);
    out.resize(n, 0);
    proof {
        needed_len_bounds(b0.len(), ps);
        assert(out@ =~= whole);
    }
    let mut undo: Vec<(usize, Vec<u8>)> = Vec::new();
    let mut k: usize = 0;
    assert(ps.take(0) =~= Seq::<(usize, Seq<u8>)>::empty());
    while k < patches.len()
        invariant
            k <= patches@.len(),
            ps == patch_list(patches@),
            patches_fit(ps),
            out@.len() == n,
            n == needed_len(b0.len(), ps),
            forall|i: int| 0 <= i < n ==> #[trigger] out@[i] == byte_after(b0, ps.take(k as int), i),
            patch_list(undo@) =~= undo_list(b0, ps).take(k as int),
        decreases patches@.len() - k,
    {
        proof {
            needed_len_bounds(b0.len(), ps);
            assert(ps.take(k + 1).drop_last() =~= ps.take(k as int));
            assert(ps.take(k + 1).last() == ps[k as int]);
            assert(ps[k as int] == (patches@[k as int].0, patches@[k as int].1@));
            assert(patch_end(ps[k as int]) <= n);
        }
        let at: usize = patches[k].0;
        let len: usize = patches[k].1.len();
        let held: Vec<u8> = copy_out(&out, at, len);
        let ghost before = patch_list(undo@);
        let ghost hv = held@;
        undo.push((at, held));
        proof {
            let u = undo_list(b0, ps)[k as int];
            assert(hv =~= u.1);
            assert(patch_list(undo@) =~= before.push((at, hv)));
        }
        copy_over(&mut out, at, &patches[k].1);
        k += 1;
    }
    proof {
        assert(ps.take(k as int) =~= ps);
        assert(out@ =~= patched(b0, ps));
    }
    (out, undo)
}

/// Writes the patches over the buffer one by one, growing it as far as each needs.
pub fn compose(buf: Vec<u8>, patches: &Vec<(usize, Vec<u8>)>) -> (r: Vec<u8>)
    requires
        patches_fit(patch_list(patches@)),
    ensures
        r@ == patched(buf@, patch_list(patches@)),
{
    let ghost ps = patch_list(patches@);
    let ghost b0 = buf@;
    let mut out: Vec<u8> = buf;
    let mut k: usize = 0;
    assert(ps.take(0) =~= Seq::<(usize, Seq<u8>)>::empty());
    assert(out@ =~= patched(b0, ps.take(0)));
    while k < patches.len()
        invariant
            k <= patches@.len(),
            ps == patch_list(patches@),
            patches_fit(ps),
            out@ == patched(b0, ps.take(k as int)),
        decreases patches@.len() - k,
    {
        proof {
            assert(ps.take(k + 1).drop_last() =~= ps.take(k as int));
            assert(ps.take(k + 1).last() == ps[k as int]);
            assert(ps[k as int] == (patches@[k as int].0, patches@[k as int].1@));
            assert(patch_end(ps[k as int]) <= usize::MAX);
        }
        let at: usize = patches[k].0;
        let end: usize = at + patches[k].1.len();
        let ghost held = out@;
        if end > out.len() {
            out.resize(end, 0);
        }
        let ghost wide = out@;
        proof {
            assert forall|i: int| 0 <= i < wide.len() implies wide[i] == byte_after(
                b0,
                ps.take(k as int),
                i,
            ) by {
                if i < held.len() {
                    assert(wide[i] == held[i]);
                } else {
                    assert(wide[i] == 0);
                    byte_after_past_end(b0, ps.take(k as int), i);
                }
            }
        }
        copy_over(&mut out, at, &patches[k].1);
        assert(out@ =~= patched(b0, ps.take(k + 1)));
        k += 1;
    }
    assert(ps.take(k as int) =~= ps);
    out
}

/// Whether two buffers hold the same bytes.
pub(crate) fn same_bytes(a: &Vec<u8>, b: &Vec<u8>) -> (r: bool)
    ensures
        r == (a@ == b@),
{
    if a.len() != b.len() {
        return false;
    }
    let mut i: usize = 0;
    while i < a.len()
        invariant
            i <= a@.len(),
            a@.len() == b@.len(),
            forall|j: int| 0 <= j < i ==> a@[j] == b@[j],
        decreases a@.len() - i,
    {
        if a[i] != b[i] {
            return false;
        }
        i += 1;
    }
    assert(a@ =~= b@);
    true
}

/// The list in reverse order.
pub fn reversed(list: &Vec<(usize, Vec<u8>)>) -> (r: Vec<(usize, Vec<u8>)>)
    ensures
        patch_list(r@) == patch_list(list@).reverse(),
{
    let ghost ps = patch_list(list@);
    let mut out: Vec<(usize, Vec<u8>)> = Vec::new();
    let mut i: usize = list.len();
    while i > 0
        invariant
            i <= list@.len(),
            ps == patch_list(list@),
            patch_list(out@) =~= ps.subrange(i as int, ps.len() as int).reverse(),
        decreases i,
    {
        i -= 1;
        let ghost before = patch_list(out@);
        out.push((list[i].0, list[i].1.clone()));
        proof {
            assert(ps[i as int] == (list@[i as int].0, list@[i as int].1@));
            assert(patch_list(out@) =~= before.push(ps[i as int]));
            assert(ps.subrange(i as int, ps.len() as int).reverse() =~= ps.subrange(
                i + 1,
                ps.len() as int,
            ).reverse().push(ps[i as int]));
        }
    }
    assert(ps.subrange(0, ps.len() as int) =~= ps);
    out
}

// ---------------------------------------------------------------------------
// One run of patches after another.
// ---------------------------------------------------------------------------

proof fn len_adds_up(len: nat, first: Seq<(usize, Seq<u8>)>, then_these: Seq<(usize, Seq<u8>)>)
    ensures
        needed_len(needed_len(len, first), then_these) == needed_len(len, first + then_these),
    decreases then_these.len(),
{
    if then_these.len() == 0 {
        assert(first + then_these =~= first);
    } else {
        len_adds_up(len, first, then_these.drop_last());
        assert((first + then_these).drop_last() =~= first + then_these.drop_last());
        assert((first + then_these).last() == then_these.last());
    }
}

proof fn byte_adds_up(
    buf: Seq<u8>,
    first: Seq<(usize, Seq<u8>)>,
    then_these: Seq<(usize, Seq<u8>)>,
    i: int,
)
    requires
        0 <= i,
    ensures
        byte_after(patched(buf, first), then_these, i) == byte_after(buf, first + then_these, i),
    decreases then_these.len(),
{
    if then_these.len() == 0 {
        assert(first + then_these =~= first);
        if i >= needed_len(buf.len(), first) {
            byte_after_past_end(buf, first, i);
        }
    } else {
        byte_adds_up(buf, first, then_these.drop_last(), i);
        assert((first + then_these).drop_last() =~= first + then_these.drop_last());
        assert((first + then_these).last() == then_these.last());
    }
}

/// Patching what was patched is the same as writing all the patches one after the other.
pub proof fn patches_add_up(
    buf: Seq<u8>,
    first: Seq<(usize, Seq<u8>)>,
    then_these: Seq<(usize, Seq<u8>)>,
)
    ensures
        patched(patched(buf, first), then_these) == patched(buf, first + then_these),
{
    len_adds_up(buf.len(), first, then_these);
    let once = patched(buf, first + then_these);
    let twice = patched(patched(buf, first), then_these);
    assert forall|i: int| 0 <= i < once.len() implies twice[i] == once[i] by {
        byte_adds_up(buf, first, then_these, i);
    }
    assert(twice =~= once);
}

/// The content after several runs of patches, each of which was consolidated before the next.
pub open spec fn after_runs(buf: Seq<u8>, runs: Seq<Seq<(usize, Seq<u8>)>>) -> Seq<u8>
    decreases runs.len(),
{
    if runs.len() == 0 {
        buf
    } else {
        patched(after_runs(buf, runs.drop_last()), runs.last())
    }
}

/// The patches of several runs, in order.
pub open spec fn all_patches(runs: Seq<Seq<(usize, Seq<u8>)>>) -> Seq<(usize, Seq<u8>)>
    decreases runs.len(),
{
    if runs.len() == 0 {
        Seq::empty()
    } else {
        all_patches(runs.drop_last()) + runs.last()
    }
}

/// However often a chunk is patched and consolidated, it holds what writing all the patches in
/// order over the first content gives: no run of patches is lost or comes out of turn.
pub proof fn consolidating_between_runs_changes_nothing(
    buf: Seq<u8>,
    runs: Seq<Seq<(usize, Seq<u8>)>>,
)
    ensures
        after_runs(buf, runs) == patched(buf, all_patches(runs)),
    decreases runs.len(),
{
    if runs.len() == 0 {
        assert(patched(buf, all_patches(runs)) =~= buf);
    } else {
        consolidating_between_runs_changes_nothing(buf, runs.drop_last());
        patches_add_up(buf, all_patches(runs.drop_last()), runs.last());
    }
}

} // verus!
