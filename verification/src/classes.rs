//! The fixed character classes, the ambiguous set, and pool derivation:
//! a pool is a class with the ambiguous and the excluded characters removed.
//!
//! All characters are ASCII and are carried as bytes.

use vstd::prelude::*;

verus! {

/// The capital letters `A` through `Z`.
pub open spec fn capital_class() -> Seq<u8> {
    Seq::new(26, |i: int| (65 + i) as u8)
}

/// The lower-case letters `a` through `z`.
pub open spec fn lower_class() -> Seq<u8> {
    Seq::new(26, |i: int| (97 + i) as u8)
}

/// The digits `0` through `9`.
pub open spec fn digit_class() -> Seq<u8> {
    Seq::new(10, |i: int| (48 + i) as u8)
}

/// The special characters, in class order: `)` `-` `(` `*` `&` `^` `%` `$` `#` `@` `!` `~`.
pub open spec fn special_class() -> Seq<u8> {
    seq![41u8, 45u8, 40u8, 42u8, 38u8, 94u8, 37u8, 36u8, 35u8, 64u8, 33u8, 126u8]
}

/// A character belongs to one of the four classes.
pub open spec fn class_char(c: u8) -> bool {
    ||| capital_class().contains(c)
    ||| lower_class().contains(c)
    ||| digit_class().contains(c)
    ||| special_class().contains(c)
}

/// The visually confusable characters: `O`, `0`, `I`, `l`, `1`.
pub open spec fn spec_is_ambiguous(c: u8) -> bool {
    c == 79 || c == 48 || c == 73 || c == 108 || c == 49
}

/// An upper-case letter, `A` through `Z`.
pub open spec fn is_upper(c: u8) -> bool {
    65 <= c <= 90
}

/// The view of an optional exclusion string.
pub open spec fn excl_view(exclusion: &Option<Vec<u8>>) -> Option<Seq<u8>> {
    match exclusion {
        Some(e) => Some(e@),
        None => None,
    }
}

/// A character struck out by the exclusion string, if one is supplied.
pub open spec fn excluded_by(c: u8, excl: Option<Seq<u8>>) -> bool {
    match excl {
        Some(e) => e.contains(c),
        None => false,
    }
}

/// A character survives pool derivation: it is not ambiguous while ambiguous
/// characters are avoided, and it does not appear in the exclusion string.
pub open spec fn kept(c: u8, avoid_ambiguous: bool, excl: Option<Seq<u8>>) -> bool {
    &&& !(avoid_ambiguous && spec_is_ambiguous(c))
    &&& !excluded_by(c, excl)
}

/// The pool derived from a class: the class characters, in class order, with
/// everything not kept removed. An empty pool is a valid value, not a failure.
pub open spec fn spec_pool(class: Seq<u8>, avoid_ambiguous: bool, excl: Option<Seq<u8>>) -> Seq<u8>
    decreases class.len(),
{
    if class.len() == 0 {
        Seq::empty()
    } else {
        let rest = spec_pool(class.drop_last(), avoid_ambiguous, excl);
        if kept(class.last(), avoid_ambiguous, excl) {
            rest.push(class.last())
        } else {
            rest
        }
    }
}

/// The capital pool: derived from the capital class, or empty when capitals
/// are excluded by policy.
pub open spec fn capital_pool(include_capitals: bool, avoid_ambiguous: bool, excl: Option<Seq<u8>>) -> Seq<u8> {
    if include_capitals {
        spec_pool(capital_class(), avoid_ambiguous, excl)
    } else {
        Seq::empty()
    }
}

/// The union pool: the four pools concatenated in the order capital, lower,
/// digit, special; duplicates across classes are preserved.
pub open spec fn union_pool(include_capitals: bool, avoid_ambiguous: bool, excl: Option<Seq<u8>>) -> Seq<u8> {
    capital_pool(include_capitals, avoid_ambiguous, excl)
        + spec_pool(lower_class(), avoid_ambiguous, excl)
        + spec_pool(digit_class(), avoid_ambiguous, excl)
        + spec_pool(special_class(), avoid_ambiguous, excl)
}

/// The capital letters as a vector.
pub fn capital_chars() -> (v: Vec<u8>)
    ensures
        v@ == capital_class(),
{
    ascii_range(65, 26)
}

/// The lower-case letters as a vector.
pub fn lower_chars() -> (v: Vec<u8>)
    ensures
        v@ == lower_class(),
{
    ascii_range(97, 26)
}

/// The digits as a vector.
pub fn digit_chars() -> (v: Vec<u8>)
    ensures
        v@ == digit_class(),
{
    ascii_range(48, 10)
}

/// The special characters as a vector.
pub fn special_chars() -> (v: Vec<u8>)
    ensures
        v@ == special_class(),
{
    let mut v: Vec<u8> = Vec::new();
    v.push(41);
    v.push(45);
    v.push(40);
    v.push(42);
    v.push(38);
    v.push(94);
    v.push(37);
    v.push(36);
    v.push(35);
    v.push(64);
    v.push(33);
    v.push(126);
    proof {
        assert(v@ =~= special_class());
    }
    v
}

/// A run of `count` consecutive ASCII codes starting at `start`.
fn ascii_range(start: u8, count: u8) -> (v: Vec<u8>)
    requires
        start + count <= 256,
    ensures
        v@ == Seq::new(count as nat, |i: int| (start + i) as u8),
{
    let mut v: Vec<u8> = Vec::new();
    let mut i: u8 = 0;
    while i < count
        invariant
            i <= count,
            start + count <= 256,
            v@.len() == i as nat,
            forall|k: int| 0 <= k < i ==> v@[k] == (start + k) as u8,
        decreases count - i,
    {
        v.push(start + i);
        i = i + 1;
    }
    proof {
        assert(v@ =~= Seq::new(count as nat, |k: int| (start + k) as u8));
    }
    v
}

/// Whether a character is one of the visually confusable ones.
pub fn is_ambiguous(c: u8) -> (r: bool)
    ensures
        r == spec_is_ambiguous(c),
{
    c == 79 || c == 48 || c == 73 || c == 108 || c == 49
}

/// Whether a byte occurs in a vector.
fn byte_in(v: &Vec<u8>, c: u8) -> (r: bool)
    ensures
        r == v@.contains(c),
{
    let mut i: usize = 0;
    while i < v.len()
        invariant
            i <= v@.len(),
            forall|k: int| 0 <= k < i ==> v@[k] != c,
        decreases v@.len() - i,
    {
        if v[i] == c {
            proof {
                assert(v@[i as int] == c);
            }
            return true;
        }
        i = i + 1;
    }
    false
}

/// Whether a character is struck out by the exclusion string.
fn is_excluded(c: u8, exclusion: &Option<Vec<u8>>) -> (r: bool)
    ensures
        r == excluded_by(c, excl_view(exclusion)),
{
    match exclusion {
        Some(e) => byte_in(e, c),
        None => false,
    }
}

/// Derive the pool of a class: remove the ambiguous characters when they are
/// to be avoided, and the characters of the exclusion string if one is given.
pub fn derive_pool(class: &Vec<u8>, avoid_ambiguous: bool, exclusion: &Option<Vec<u8>>) -> (pool: Vec<u8>)
    ensures
        pool@ == spec_pool(class@, avoid_ambiguous, excl_view(exclusion)),
{
    let mut pool: Vec<u8> = Vec::new();
    let mut i: usize = 0;
    while i < class.len()
        invariant
            i <= class@.len(),
            pool@ == spec_pool(class@.take(i as int), avoid_ambiguous, excl_view(exclusion)),
        decreases class@.len() - i,
    {
        let c = class[i];
        proof {
            assert(class@.take(i + 1).drop_last() =~= class@.take(i as int));
            assert(class@.take(i + 1).last() == c);
        }
        if !(avoid_ambiguous && is_ambiguous(c)) && !is_excluded(c, exclusion) {
            pool.push(c);
        }
        i = i + 1;
    }
    proof {
        assert(class@.take(class@.len() as int) =~= class@);
    }
    pool
}

/// Every pool character comes from its class and survives the exclusions:
/// the pool is a subset of its source class.
pub proof fn lemma_pool_chars(class: Seq<u8>, avoid_ambiguous: bool, excl: Option<Seq<u8>>)
    ensures
        forall|k: int|
            0 <= k < spec_pool(class, avoid_ambiguous, excl).len() ==> {
                let c = #[trigger] spec_pool(class, avoid_ambiguous, excl)[k];
                class.contains(c) && kept(c, avoid_ambiguous, excl)
            },
    decreases class.len(),
{
    if class.len() > 0 {
        let rest = spec_pool(class.drop_last(), avoid_ambiguous, excl);
        let p = spec_pool(class, avoid_ambiguous, excl);
        lemma_pool_chars(class.drop_last(), avoid_ambiguous, excl);
        assert forall|k: int| 0 <= k < p.len() implies class.contains(#[trigger] p[k]) && kept(
            p[k],
            avoid_ambiguous,
            excl,
        ) by {
            if k < rest.len() {
                assert(p[k] == rest[k]);
                assert(class.drop_last().contains(rest[k]));
                let j = choose|j: int|
                    0 <= j < class.drop_last().len() && class.drop_last()[j] == rest[k];
                assert(class[j] == rest[k]);
            } else {
                assert(p[k] == class.last());
                assert(class[class.len() - 1] == class.last());
            }
        }
    }
}

/// A pool of a class with distinct characters again has distinct characters.
pub proof fn lemma_pool_no_duplicates(class: Seq<u8>, avoid_ambiguous: bool, excl: Option<Seq<u8>>)
    requires
        class.no_duplicates(),
    ensures
        spec_pool(class, avoid_ambiguous, excl).no_duplicates(),
    decreases class.len(),
{
    if class.len() > 0 {
        let rest = spec_pool(class.drop_last(), avoid_ambiguous, excl);
        assert(class.drop_last().no_duplicates());
        lemma_pool_no_duplicates(class.drop_last(), avoid_ambiguous, excl);
        lemma_pool_chars(class.drop_last(), avoid_ambiguous, excl);
        if kept(class.last(), avoid_ambiguous, excl) {
            assert forall|k: int| 0 <= k < rest.len() implies rest[k] != class.last() by {
                let c = rest[k];
                assert(class.drop_last().contains(c));
                let j = choose|j: int| 0 <= j < class.drop_last().len() && class.drop_last()[j] == c;
                assert(class[j] == c);
                assert(class[j] != class[class.len() - 1]);
            }
            assert(rest.push(class.last()).no_duplicates());
        }
    }
}

/// Each of the four classes has distinct characters.
pub proof fn lemma_classes_no_duplicates()
    ensures
        capital_class().no_duplicates(),
        lower_class().no_duplicates(),
        digit_class().no_duplicates(),
        special_class().no_duplicates(),
{
}

/// If the exclusion string covers a whole class, the derived pool is empty.
pub proof fn lemma_pool_empty_when_covered(class: Seq<u8>, avoid_ambiguous: bool, excl: Seq<u8>)
    requires
        forall|k: int| 0 <= k < class.len() ==> excl.contains(#[trigger] class[k]),
    ensures
        spec_pool(class, avoid_ambiguous, Some(excl)).len() == 0,
    decreases class.len(),
{
    if class.len() > 0 {
        assert forall|k: int| 0 <= k < class.drop_last().len() implies excl.contains(
            #[trigger] class.drop_last()[k],
        ) by {
            assert(class.drop_last()[k] == class[k]);
        }
        lemma_pool_empty_when_covered(class.drop_last(), avoid_ambiguous, excl);
        assert(excl.contains(class[class.len() - 1]));
        assert(!kept(class.last(), avoid_ambiguous, Some(excl)));
    }
}

/// Every character of the union pool survives the exclusions, belongs to one
/// of the four classes, is not upper-case when capitals are excluded, and is
/// never the underscore that marks the sentinel.
pub proof fn lemma_union_pool_chars(include_capitals: bool, avoid_ambiguous: bool, excl: Option<Seq<u8>>)
    ensures
        forall|k: int|
            0 <= k < union_pool(include_capitals, avoid_ambiguous, excl).len() ==> {
                let c = #[trigger] union_pool(include_capitals, avoid_ambiguous, excl)[k];
                &&& kept(c, avoid_ambiguous, excl)
                &&& class_char(c)
                &&& (!include_capitals ==> !is_upper(c))
                &&& c != 95
            },
{
    let pc = capital_pool(include_capitals, avoid_ambiguous, excl);
    let pl = spec_pool(lower_class(), avoid_ambiguous, excl);
    let pd = spec_pool(digit_class(), avoid_ambiguous, excl);
    let ps = spec_pool(special_class(), avoid_ambiguous, excl);
    lemma_pool_chars(capital_class(), avoid_ambiguous, excl);
    lemma_pool_chars(lower_class(), avoid_ambiguous, excl);
    lemma_pool_chars(digit_class(), avoid_ambiguous, excl);
    lemma_pool_chars(special_class(), avoid_ambiguous, excl);
    assert forall|k: int|
        0 <= k < union_pool(include_capitals, avoid_ambiguous, excl).len() implies {
        let c = #[trigger] union_pool(include_capitals, avoid_ambiguous, excl)[k];
        &&& kept(c, avoid_ambiguous, excl)
        &&& class_char(c)
        &&& (!include_capitals ==> !is_upper(c))
        &&& c != 95
    } by {
        let u = union_pool(include_capitals, avoid_ambiguous, excl);
        let c = u[k];
        if k < pc.len() {
            assert(c == pc[k]);
            assert(include_capitals);
            assert(capital_class().contains(c));
            lemma_class_char_ranges(c);
        } else if k < pc.len() + pl.len() {
            assert(c == pl[k - pc.len()]);
            assert(lower_class().contains(c));
            lemma_class_char_ranges(c);
        } else if k < pc.len() + pl.len() + pd.len() {
            assert(c == pd[k - pc.len() - pl.len()]);
            assert(digit_class().contains(c));
            lemma_class_char_ranges(c);
        } else {
            assert(c == ps[k - pc.len() - pl.len() - pd.len()]);
            assert(special_class().contains(c));
            lemma_class_char_ranges(c);
        }
    }
}

/// A sequence whose characters all come from the union pool inherits the
/// pool's guarantees: nothing excluded, nothing ambiguous when ambiguous
/// characters are avoided, nothing upper-case when capitals are excluded,
/// and never the underscore that marks the sentinel.
pub proof fn lemma_chars_from_union(
    include_capitals: bool,
    avoid_ambiguous: bool,
    excl: Option<Seq<u8>>,
    out: Seq<u8>,
)
    requires
        forall|k: int|
            0 <= k < out.len() ==> union_pool(include_capitals, avoid_ambiguous, excl).contains(
                #[trigger] out[k],
            ),
    ensures
        forall|k: int| 0 <= k < out.len() ==> !excluded_by(#[trigger] out[k], excl),
        avoid_ambiguous ==> forall|k: int|
            0 <= k < out.len() ==> !spec_is_ambiguous(#[trigger] out[k]),
        !include_capitals ==> forall|k: int| 0 <= k < out.len() ==> !is_upper(#[trigger] out[k]),
        forall|k: int| 0 <= k < out.len() ==> #[trigger] out[k] != 95,
{
    let u = union_pool(include_capitals, avoid_ambiguous, excl);
    lemma_union_pool_chars(include_capitals, avoid_ambiguous, excl);
    assert forall|k: int| 0 <= k < out.len() implies !excluded_by(#[trigger] out[k], excl) && !(
    avoid_ambiguous && spec_is_ambiguous(out[k])) && (!include_capitals ==> !is_upper(out[k]))
        && out[k] != 95 by {
        assert(u.contains(out[k]));
        let j = choose|j: int| 0 <= j < u.len() && u[j] == out[k];
        assert(u[j] == out[k]);
    }
}

/// The code ranges of the classes: capitals are the upper-case letters, and
/// no class contains the underscore; only the capital class is upper-case.
pub proof fn lemma_class_char_ranges(c: u8)
    ensures
        capital_class().contains(c) ==> is_upper(c) && c != 95,
        lower_class().contains(c) ==> !is_upper(c) && c != 95,
        digit_class().contains(c) ==> !is_upper(c) && c != 95 && 48 <= c <= 57,
        special_class().contains(c) ==> !is_upper(c) && c != 95,
{
    if capital_class().contains(c) {
        let i = choose|i: int| 0 <= i < 26 && capital_class()[i] == c;
        assert(c == (65 + i) as u8);
    }
    if lower_class().contains(c) {
        let i = choose|i: int| 0 <= i < 26 && lower_class()[i] == c;
        assert(c == (97 + i) as u8);
    }
    if digit_class().contains(c) {
        let i = choose|i: int| 0 <= i < 10 && digit_class()[i] == c;
        assert(c == (48 + i) as u8);
    }
    if special_class().contains(c) {
        let i = choose|i: int| 0 <= i < 12 && special_class()[i] == c;
    }
}

} // verus!
