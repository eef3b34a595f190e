//! Password and PIN generation: mandatory-class seeding, random fill from
//! the union pool, shuffle, and truncation to the requested length.
//!
//! Each generator is pinned to a functional model of the whole computation,
//! so that on a replay source the output is a function of the configuration
//! and the recorded draws alone.

use vstd::prelude::*;
use crate::classes::{
    capital_class, lower_class, digit_class, special_class, class_char, spec_is_ambiguous,
    is_upper, excl_view, excluded_by, spec_pool, capital_pool, union_pool, capital_chars,
    lower_chars, digit_chars, special_chars, derive_pool, lemma_pool_empty_when_covered,
    lemma_chars_from_union, lemma_class_char_ranges,
};
use crate::random::{
    SourceModel, pick_of, step_of, shuffled, RandomSource, lemma_permutation_contains,
};

verus! {

/// The fixed marker returned in place of a password when every pool is
/// empty: `!!!_POOL_EMPTY_!!!`.
pub open spec fn sentinel_seq() -> Seq<u8> {
    seq![
        33u8,
        33u8,
        33u8,
        95u8,
        80u8,
        79u8,
        79u8,
        76u8,
        95u8,
        69u8,
        77u8,
        80u8,
        84u8,
        89u8,
        95u8,
        33u8,
        33u8,
        33u8,
    ]
}

/// The sentinel as a vector.
pub fn sentinel() -> (v: Vec<u8>)
    ensures
        v@ == sentinel_seq(),
{
    let mut v: Vec<u8> = Vec::new();
    v.push(33);
    v.push(33);
    v.push(33);
    v.push(95);
    v.push(80);
    v.push(79);
    v.push(79);
    v.push(76);
    v.push(95);
    v.push(69);
    v.push(77);
    v.push(80);
    v.push(84);
    v.push(89);
    v.push(95);
    v.push(33);
    v.push(33);
    v.push(33);
    proof {
        assert(v@ =~= sentinel_seq());
    }
    v
}

/// One mandatory draw: a pool that has characters contributes one drawn
/// character; an empty pool contributes nothing and consumes no draw.
pub open spec fn seed_step(pool: Seq<u8>, acc: Seq<u8>, m: SourceModel) -> (Seq<u8>, SourceModel) {
    if pool.len() == 0 {
        (acc, m)
    } else {
        (acc.push(pool[pick_of(m, pool.len()) as int]), step_of(m))
    }
}

/// The mandatory characters, drawn in the fixed order lower, digit,
/// special, capital.
pub open spec fn seeded(
    pl: Seq<u8>,
    pd: Seq<u8>,
    ps: Seq<u8>,
    pc: Seq<u8>,
    m: SourceModel,
) -> (Seq<u8>, SourceModel) {
    let s1 = seed_step(pl, Seq::empty(), m);
    let s2 = seed_step(pd, s1.0, s1.1);
    let s3 = seed_step(ps, s2.0, s2.1);
    seed_step(pc, s3.0, s3.1)
}

/// `need` further characters drawn from `pool`, appended to `acc`.
pub open spec fn filled(pool: Seq<u8>, acc: Seq<u8>, need: nat, m: SourceModel) -> (Seq<
    u8,
>, SourceModel)
    recommends
        pool.len() > 0,
    decreases need,
{
    if need == 0 {
        (acc, m)
    } else {
        filled(pool, acc.push(pool[pick_of(m, pool.len()) as int]), (need - 1) as nat, step_of(m))
    }
}

/// The password that a replay source in state `m` produces, together with
/// the state the source is left in: the sentinel when the union pool is
/// empty, and otherwise the seeded, filled, shuffled sequence cut to `len`.
pub open spec fn password_of(
    len: nat,
    include_capitals: bool,
    avoid_ambiguous: bool,
    excl: Option<Seq<u8>>,
    m: SourceModel,
) -> (Seq<u8>, SourceModel) {
    let pl = spec_pool(lower_class(), avoid_ambiguous, excl);
    let pd = spec_pool(digit_class(), avoid_ambiguous, excl);
    let ps = spec_pool(special_class(), avoid_ambiguous, excl);
    let pc = capital_pool(include_capitals, avoid_ambiguous, excl);
    let u = union_pool(include_capitals, avoid_ambiguous, excl);
    if u.len() == 0 {
        (sentinel_seq(), m)
    } else {
        let s = seeded(pl, pd, ps, pc, m);
        let need = if len > s.0.len() {
            (len - s.0.len()) as nat
        } else {
            0nat
        };
        let f = filled(u, s.0, need, s.1);
        let sh = shuffled(f.0, f.1);
        (sh.0.subrange(0, len as int), sh.1)
    }
}

/// The PIN that a replay source in state `m` produces, together with the
/// state the source is left in.
pub open spec fn pin_of(len: nat, m: SourceModel) -> (Seq<u8>, SourceModel) {
    filled(digit_class(), Seq::empty(), len, m)
}

/// One when the pool has characters, zero when it is empty.
pub open spec fn one_if_active(pool: Seq<u8>) -> nat {
    if pool.len() > 0 {
        1nat
    } else {
        0nat
    }
}

/// How many of the four pools contribute a mandatory character.
pub open spec fn active_count(
    include_capitals: bool,
    avoid_ambiguous: bool,
    excl: Option<Seq<u8>>,
) -> nat {
    one_if_active(spec_pool(lower_class(), avoid_ambiguous, excl)) + one_if_active(
        spec_pool(digit_class(), avoid_ambiguous, excl),
    ) + one_if_active(spec_pool(special_class(), avoid_ambiguous, excl)) + one_if_active(
        capital_pool(include_capitals, avoid_ambiguous, excl),
    )
}

/// The output holds a character of the pool, unless the pool is empty.
pub open spec fn pool_present(pool: Seq<u8>, out: Seq<u8>) -> bool {
    pool.len() > 0 ==> exists|k: int| 0 <= k < out.len() && pool.contains(#[trigger] out[k])
}

/// Every non-empty pool is represented in the output: the mandatory-class
/// guarantee.
pub open spec fn mandatory_present(
    include_capitals: bool,
    avoid_ambiguous: bool,
    excl: Option<Seq<u8>>,
    out: Seq<u8>,
) -> bool {
    &&& pool_present(spec_pool(lower_class(), avoid_ambiguous, excl), out)
    &&& pool_present(spec_pool(digit_class(), avoid_ambiguous, excl), out)
    &&& pool_present(spec_pool(special_class(), avoid_ambiguous, excl), out)
    &&& pool_present(capital_pool(include_capitals, avoid_ambiguous, excl), out)
}

/// Append `count` characters drawn from `pool` to `acc`, exactly as the
/// model `filled` says on a replay source.
#[verifier::loop_isolation(false)]
fn fill_from_pool(acc: &mut Vec<u8>, pool: &Vec<u8>, count: usize, src: &mut RandomSource)
    requires
        pool@.len() > 0,
        old(acc)@.len() + count <= usize::MAX,
        old(src).wf(),
    ensures
        final(src).wf(),
        final(src).is_replay() == old(src).is_replay(),
        final(acc)@.len() == old(acc)@.len() + count,
        final(acc)@.subrange(0, old(acc)@.len() as int) == old(acc)@,
        forall|k: int|
            old(acc)@.len() <= k < final(acc)@.len() ==> pool@.contains(#[trigger] final(acc)@[k]),
        old(src).is_replay() ==> (final(acc)@, final(src).model()) == filled(
            pool@,
            old(acc)@,
            count as nat,
            old(src).model(),
        ),
{
    let ghost base = old(acc)@.len() as int;
    let mut n: usize = 0;
    while n < count
        invariant
            pool@.len() > 0,
            n <= count,
            old(acc)@.len() + count <= usize::MAX,
            acc@.len() == old(acc)@.len() + n,
            acc@.subrange(0, base) == old(acc)@,
            forall|k: int| base <= k < acc@.len() ==> pool@.contains(#[trigger] acc@[k]),
            src.wf(),
            src.is_replay() == old(src).is_replay(),
            old(src).is_replay() ==> filled(pool@, acc@, (count - n) as nat, src.model())
                == filled(pool@, old(acc)@, count as nat, old(src).model()),
        decreases count - n,
    {
        let ghost prev = acc@;
        let ghost prev_m = src.model();
        let j = src.pick_index(pool.len());
        let c = pool[j];
        acc.push(c);
        n = n + 1;
        proof {
            assert(acc@ == prev.push(c));
            assert(acc@.subrange(0, base) =~= prev.subrange(0, base));
            assert(pool@[j as int] == c);
            assert(pool@.contains(c));
            if old(src).is_replay() {
                assert(filled(pool@, prev, (count - n + 1) as nat, prev_m) == filled(
                    pool@,
                    prev.push(pool@[pick_of(prev_m, pool@.len()) as int]),
                    (count - n) as nat,
                    step_of(prev_m),
                ));
            }
        }
    }
}

/// Membership in the union pool survives a permutation and a truncation.
proof fn lemma_membership_after_shuffle(u: Seq<u8>, b: Seq<u8>, c: Seq<u8>, d: Seq<u8>, len: int)
    requires
        forall|k: int| 0 <= k < b.len() ==> u.contains(#[trigger] b[k]),
        b.to_multiset() == c.to_multiset(),
        0 <= len <= c.len(),
        d == c.subrange(0, len),
    ensures
        forall|k: int| 0 <= k < d.len() ==> u.contains(#[trigger] d[k]),
{
    lemma_permutation_contains(b, c);
    assert forall|k: int| 0 <= k < d.len() implies u.contains(#[trigger] d[k]) by {
        assert(d[k] == c[k]);
        assert(c.contains(c[k]));
        assert(b.contains(c[k]));
        let j = choose|j: int| 0 <= j < b.len() && b[j] == c[k];
        assert(u.contains(b[j]));
    }
}

/// The presence of a pool character survives the fill and a permutation.
proof fn lemma_presence_after_shuffle(pool: Seq<u8>, a: Seq<u8>, b: Seq<u8>, c: Seq<u8>)
    requires
        pool_present(pool, a),
        a.len() <= b.len(),
        b.subrange(0, a.len() as int) == a,
        b.to_multiset() == c.to_multiset(),
    ensures
        pool_present(pool, c),
{
    if pool.len() > 0 {
        let k0 = choose|k: int| 0 <= k < a.len() && pool.contains(#[trigger] a[k]);
        assert(b[k0] == b.subrange(0, a.len() as int)[k0]);
        assert(b.contains(b[k0]));
        lemma_permutation_contains(b, c);
        assert(c.contains(a[k0]));
        let k1 = choose|k: int| 0 <= k < c.len() && c[k] == a[k0];
        assert(pool.contains(c[k1]));
    }
}

/// Seed the mandatory characters: one drawn uniformly from each non-empty
/// pool, in the fixed order lower, digit, special, capital; an empty pool
/// contributes nothing and is silently skipped.
fn seed_mandatory(
    pl: &Vec<u8>,
    pd: &Vec<u8>,
    ps: &Vec<u8>,
    pc: &Vec<u8>,
    src: &mut RandomSource,
) -> (out: Vec<u8>)
    requires
        old(src).wf(),
    ensures
        final(src).wf(),
        final(src).is_replay() == old(src).is_replay(),
        out@.len() == one_if_active(pl@) + one_if_active(pd@) + one_if_active(ps@)
            + one_if_active(pc@),
        forall|k: int|
            0 <= k < out@.len() ==> (pc@ + pl@ + pd@ + ps@).contains(#[trigger] out@[k]),
        pl@.len() > 0 ==> exists|k: int| 0 <= k < out@.len() && pl@.contains(#[trigger] out@[k]),
        pd@.len() > 0 ==> exists|k: int| 0 <= k < out@.len() && pd@.contains(#[trigger] out@[k]),
        ps@.len() > 0 ==> exists|k: int| 0 <= k < out@.len() && ps@.contains(#[trigger] out@[k]),
        pc@.len() > 0 ==> exists|k: int| 0 <= k < out@.len() && pc@.contains(#[trigger] out@[k]),
        old(src).is_replay() ==> (out@, final(src).model()) == seeded(
            pl@,
            pd@,
            ps@,
            pc@,
            old(src).model(),
        ),
{
    let ghost uu = pc@ + pl@ + pd@ + ps@;
    let ghost m0 = old(src).model();
    let ghost rep = old(src).is_replay();
    let mut out: Vec<u8> = Vec::new();
    let ghost s1 = seed_step(pl@, Seq::empty(), m0);
    let ghost wl: int = 0;
    if pl.len() > 0 {
        let j = src.pick_index(pl.len());
        let c = pl[j];
        out.push(c);
        proof {
            assert((pc@ + pl@)[pc@.len() + j] == pl@[j as int]);
            assert((pc@ + pl@ + pd@)[pc@.len() + j] == (pc@ + pl@)[pc@.len() + j]);
            assert(uu[pc@.len() + j] == (pc@ + pl@ + pd@)[pc@.len() + j]);
            assert(uu.contains(c));
            assert(pl@.contains(c));
            assert(out@[wl] == c);
        }
    }
    proof {
        assert(rep ==> (out@, src.model()) == s1);
    }
    let ghost s2 = seed_step(pd@, s1.0, s1.1);
    let ghost wd: int = out@.len() as int;
    if pd.len() > 0 {
        let j = src.pick_index(pd.len());
        let c = pd[j];
        out.push(c);
        proof {
            assert((pc@ + pl@ + pd@)[pc@.len() + pl@.len() + j] == pd@[j as int]);
            assert(uu[pc@.len() + pl@.len() + j] == (pc@ + pl@ + pd@)[pc@.len() + pl@.len() + j]);
            assert(uu.contains(c));
            assert(pd@.contains(c));
            assert(out@[wd] == c);
        }
    }
    proof {
        assert(rep ==> (out@, src.model()) == s2);
    }
    let ghost s3 = seed_step(ps@, s2.0, s2.1);
    let ghost ws: int = out@.len() as int;
    if ps.len() > 0 {
        let j = src.pick_index(ps.len());
        let c = ps[j];
        out.push(c);
        proof {
            assert(uu[pc@.len() + pl@.len() + pd@.len() + j] == ps@[j as int]);
            assert(uu.contains(c));
            assert(ps@.contains(c));
            assert(out@[ws] == c);
        }
    }
    proof {
        assert(rep ==> (out@, src.model()) == s3);
    }
    let ghost s4 = seed_step(pc@, s3.0, s3.1);
    let ghost wc: int = out@.len() as int;
    if pc.len() > 0 {
        let j = src.pick_index(pc.len());
        let c = pc[j];
        out.push(c);
        proof {
            assert((pc@ + pl@)[j as int] == pc@[j as int]);
            assert((pc@ + pl@ + pd@)[j as int] == (pc@ + pl@)[j as int]);
            assert(uu[j as int] == (pc@ + pl@ + pd@)[j as int]);
            assert(uu.contains(c));
            assert(pc@.contains(c));
            assert(out@[wc] == c);
        }
    }
    proof {
        assert(rep ==> (out@, src.model()) == s4);
        assert(rep ==> s4 == seeded(pl@, pd@, ps@, pc@, m0));
        assert(pl@.len() > 0 ==> pl@.contains(out@[wl]));
        assert(pd@.len() > 0 ==> pd@.contains(out@[wd]));
        assert(ps@.len() > 0 ==> ps@.contains(out@[ws]));
        assert(pc@.len() > 0 ==> pc@.contains(out@[wc]));
    }
    out
}

/// Generate a password of `len` characters: derive the four pools, seed one
/// mandatory character from each non-empty pool in the order lower, digit,
/// special, capital, fill from the union pool up to `len`, shuffle, and
/// truncate to `len`. When every pool is empty the fixed sentinel is
/// returned instead; it is recognisable, since a real password never holds
/// an underscore. When `len` is smaller than the number of mandatory
/// characters, the truncation may drop some of them: presence is only
/// guaranteed when `len` admits them all.
#[verifier::rlimit(100)]
pub fn generate_password(
    len: usize,
    include_capitals: bool,
    avoid_ambiguous: bool,
    exclusion: &Option<Vec<u8>>,
    src: &mut RandomSource,
) -> (out: Vec<u8>)
    requires
        len >= 1,
        old(src).wf(),
    ensures
        final(src).wf(),
        final(src).is_replay() == old(src).is_replay(),
        union_pool(include_capitals, avoid_ambiguous, excl_view(exclusion)).len() == 0 ==> out@
            == sentinel_seq(),
        union_pool(include_capitals, avoid_ambiguous, excl_view(exclusion)).len() > 0 ==> out@.len()
            == len && out@ != sentinel_seq(),
        union_pool(include_capitals, avoid_ambiguous, excl_view(exclusion)).len() > 0 ==> forall|
            k: int,
        |
            0 <= k < out@.len() ==> union_pool(
                include_capitals,
                avoid_ambiguous,
                excl_view(exclusion),
            ).contains(#[trigger] out@[k]),
        union_pool(include_capitals, avoid_ambiguous, excl_view(exclusion)).len() > 0 ==> forall|
            k: int,
        | 0 <= k < out@.len() ==> !excluded_by(#[trigger] out@[k], excl_view(exclusion)),
        union_pool(include_capitals, avoid_ambiguous, excl_view(exclusion)).len() > 0
            && avoid_ambiguous ==> forall|k: int|
            0 <= k < out@.len() ==> !spec_is_ambiguous(#[trigger] out@[k]),
        union_pool(include_capitals, avoid_ambiguous, excl_view(exclusion)).len() > 0
            && !include_capitals ==> forall|k: int|
            0 <= k < out@.len() ==> !is_upper(#[trigger] out@[k]),
        union_pool(include_capitals, avoid_ambiguous, excl_view(exclusion)).len() > 0 && len
            >= active_count(include_capitals, avoid_ambiguous, excl_view(exclusion))
            ==> mandatory_present(include_capitals, avoid_ambiguous, excl_view(exclusion), out@),
        old(src).is_replay() ==> out@ == password_of(
            len as nat,
            include_capitals,
            avoid_ambiguous,
            excl_view(exclusion),
            old(src).model(),
        ).0 && final(src).model() == password_of(
            len as nat,
            include_capitals,
            avoid_ambiguous,
            excl_view(exclusion),
            old(src).model(),
        ).1,
{
    let ghost e = excl_view(exclusion);
    let ghost m0 = old(src).model();
    let ghost u = union_pool(include_capitals, avoid_ambiguous, e);
    let ghost rep = old(src).is_replay();

    let lower = lower_chars();
    let digits = digit_chars();
    let special = special_chars();
    let mut pl = derive_pool(&lower, avoid_ambiguous, exclusion);
    let mut pd = derive_pool(&digits, avoid_ambiguous, exclusion);
    let mut ps = derive_pool(&special, avoid_ambiguous, exclusion);
    let mut pc: Vec<u8> = if include_capitals {
        let capitals = capital_chars();
        derive_pool(&capitals, avoid_ambiguous, exclusion)
    } else {
        Vec::new()
    };
    let ghost plv = pl@;
    let ghost pdv = pd@;
    let ghost psv = ps@;
    let ghost pcv = pc@;
    proof {
        assert(pcv == capital_pool(include_capitals, avoid_ambiguous, e));
        assert(u == pcv + plv + pdv + psv);
        assert(u.len() == pcv.len() + plv.len() + pdv.len() + psv.len());
    }

    if pl.len() == 0 && pd.len() == 0 && ps.len() == 0 && pc.len() == 0 {
        // the degenerate case: nothing to sample from, yield the sentinel
        proof {
            assert(u.len() == 0);
        }
        return sentinel();
    }
    proof {
        assert(u.len() > 0);
    }

    // mandatory-class seeding
    let mut out = seed_mandatory(&pl, &pd, &ps, &pc, src);
    let seeds_n = out.len();
    let ghost sd = seeded(plv, pdv, psv, pcv, m0);
    let ghost pre_fill = out@;
    proof {
        assert(rep ==> (out@, src.model()) == sd);
        assert(seeds_n as nat == active_count(include_capitals, avoid_ambiguous, e));
        assert(forall|k: int| 0 <= k < pre_fill.len() ==> u.contains(#[trigger] pre_fill[k]));
    }

    // the union pool, in the order capital, lower, digit, special
    let mut all_pool: Vec<u8> = Vec::new();
    all_pool.append(&mut pc);
    all_pool.append(&mut pl);
    all_pool.append(&mut pd);
    all_pool.append(&mut ps);
    proof {
        assert(all_pool@ =~= u);
    }

    // fill from the union pool up to the requested length
    let count = if len > seeds_n {
        len - seeds_n
    } else {
        0
    };
    let ghost need = if len as nat > sd.0.len() {
        (len as nat - sd.0.len()) as nat
    } else {
        0nat
    };
    let ghost fl = filled(u, sd.0, need, sd.1);
    fill_from_pool(&mut out, &all_pool, count, src);
    let ghost pre_shuffle = out@;
    proof {
        assert(rep ==> count as nat == need);
        assert(rep ==> (out@, src.model()) == fl);
        assert(pre_shuffle.len() >= len);
        assert(pre_shuffle.subrange(0, pre_fill.len() as int) == pre_fill);
        assert forall|k: int| 0 <= k < pre_shuffle.len() implies u.contains(
            #[trigger] pre_shuffle[k],
        ) by {
            if k < pre_fill.len() {
                assert(pre_shuffle[k] == pre_fill.subrange(0, pre_fill.len() as int)[k]);
            }
        }
    }

    // shuffle, so the mandatory characters are not predictably placed
    src.shuffle(&mut out);
    let ghost pre_trunc = out@;
    proof {
        assert(rep ==> (pre_trunc, src.model()) == shuffled(fl.0, fl.1));
    }

    // truncate to the requested length
    out.truncate(len);
    proof {
        assert(out@ == pre_trunc.subrange(0, len as int));
        lemma_membership_after_shuffle(u, pre_shuffle, pre_trunc, out@, len as int);
        lemma_chars_from_union(include_capitals, avoid_ambiguous, e, out@);
        assert(out@ != sentinel_seq()) by {
            if out@.len() == sentinel_seq().len() {
                assert(out@[3] != 95);
                assert(sentinel_seq()[3] == 95);
            }
        }
        if rep {
            let p = password_of(len as nat, include_capitals, avoid_ambiguous, e, m0);
            assert(p.0 == shuffled(fl.0, fl.1).0.subrange(0, len as int));
            assert(p.1 == shuffled(fl.0, fl.1).1);
            assert(out@ == p.0);
            assert(src.model() == p.1);
        }
        if len >= active_count(include_capitals, avoid_ambiguous, e) {
            assert(out@ =~= pre_trunc);
            lemma_presence_after_shuffle(plv, pre_fill, pre_shuffle, out@);
            lemma_presence_after_shuffle(pdv, pre_fill, pre_shuffle, out@);
            lemma_presence_after_shuffle(psv, pre_fill, pre_shuffle, out@);
            lemma_presence_after_shuffle(pcv, pre_fill, pre_shuffle, out@);
            assert(mandatory_present(include_capitals, avoid_ambiguous, e, out@));
        }
    }
    out
}

/// Draw `len` characters independently and uniformly, with replacement,
/// from `pool`; `None` when the pool is empty, in which case sampling is
/// never attempted.
pub fn sample_from_pool(pool: &Vec<u8>, len: usize, src: &mut RandomSource) -> (out: Option<
    Vec<u8>,
>)
    requires
        old(src).wf(),
    ensures
        final(src).wf(),
        final(src).is_replay() == old(src).is_replay(),
        out is None <==> pool@.len() == 0,
        out matches Some(v) ==> v@.len() == len && (forall|k: int|
            0 <= k < v@.len() ==> pool@.contains(#[trigger] v@[k])) && (old(src).is_replay()
            ==> (v@, final(src).model()) == filled(
            pool@,
            Seq::empty(),
            len as nat,
            old(src).model(),
        )),
{
    if pool.len() == 0 {
        return None;
    }
    let mut v: Vec<u8> = Vec::new();
    fill_from_pool(&mut v, pool, len, src);
    Some(v)
}

/// Generate a PIN of `len` digits, each drawn independently and uniformly
/// from the fixed digit class `0` through `9`, which is never emptied.
pub fn generate_pin(len: usize, src: &mut RandomSource) -> (out: Vec<u8>)
    requires
        len >= 1,
        old(src).wf(),
    ensures
        final(src).wf(),
        final(src).is_replay() == old(src).is_replay(),
        out@.len() == len,
        forall|k: int| 0 <= k < out@.len() ==> 48 <= #[trigger] out@[k] <= 57,
        old(src).is_replay() ==> out@ == pin_of(len as nat, old(src).model()).0
            && final(src).model() == pin_of(len as nat, old(src).model()).1,
{
    let digits = digit_chars();
    let r = sample_from_pool(&digits, len, src);
    match r {
        Some(v) => {
            proof {
                assert forall|k: int| 0 <= k < v@.len() implies 48 <= #[trigger] v@[k] <= 57 by {
                    assert(digit_class().contains(v@[k]));
                    lemma_class_char_ranges(v@[k]);
                }
            }
            v
        },
        None => {
            proof {
                assert(false);
            }
            Vec::new()
        },
    }
}

/// If the exclusion string covers every character of all four classes,
/// every pool and with them the union pool is empty, so password generation
/// yields the sentinel.
pub proof fn lemma_exclusion_covering_all(
    include_capitals: bool,
    avoid_ambiguous: bool,
    excl: Seq<u8>,
)
    requires
        forall|c: u8| class_char(c) ==> excl.contains(c),
    ensures
        union_pool(include_capitals, avoid_ambiguous, Some(excl)).len() == 0,
{
    assert forall|k: int| 0 <= k < capital_class().len() implies excl.contains(
        #[trigger] capital_class()[k],
    ) by {
        assert(capital_class().contains(capital_class()[k]));
        assert(class_char(capital_class()[k]));
    }
    assert forall|k: int| 0 <= k < lower_class().len() implies excl.contains(
        #[trigger] lower_class()[k],
    ) by {
        assert(lower_class().contains(lower_class()[k]));
        assert(class_char(lower_class()[k]));
    }
    assert forall|k: int| 0 <= k < digit_class().len() implies excl.contains(
        #[trigger] digit_class()[k],
    ) by {
        assert(digit_class().contains(digit_class()[k]));
        assert(class_char(digit_class()[k]));
    }
    assert forall|k: int| 0 <= k < special_class().len() implies excl.contains(
        #[trigger] special_class()[k],
    ) by {
        assert(special_class().contains(special_class()[k]));
        assert(class_char(special_class()[k]));
    }
    lemma_pool_empty_when_covered(capital_class(), avoid_ambiguous, excl);
    lemma_pool_empty_when_covered(lower_class(), avoid_ambiguous, excl);
    lemma_pool_empty_when_covered(digit_class(), avoid_ambiguous, excl);
    lemma_pool_empty_when_covered(special_class(), avoid_ambiguous, excl);
}

/// Replay determinism: two replay sources with the same recorded draws at
/// the same position produce the same password and the same PIN, and leave
/// their sources in the same state — there is no nondeterminism beyond the
/// draws themselves.
pub proof fn lemma_replay_determinism(
    len: nat,
    include_capitals: bool,
    avoid_ambiguous: bool,
    excl: Option<Seq<u8>>,
    m1: SourceModel,
    m2: SourceModel,
)
    requires
        m1.draws =~= m2.draws,
        m1.pos == m2.pos,
    ensures
        password_of(len, include_capitals, avoid_ambiguous, excl, m1) == password_of(
            len,
            include_capitals,
            avoid_ambiguous,
            excl,
            m2,
        ),
        pin_of(len, m1) == pin_of(len, m2),
{
    assert(m1 =~= m2);
}

} // verus!
