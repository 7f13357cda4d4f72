use vstd::prelude::*;
use vstd::slice::slice_to_vec;
use vstd::bytes::spec_u32_from_le_bytes;
use crate::decode::{string_from_utf8, utf8_text, DecodeError, Decoder};
use crate::type_id::{
    OPTION_TYPE_NONE, OPTION_TYPE_SOME, RESULT_TYPE_ERR, RESULT_TYPE_OK, TYPE_ARRAY, TYPE_BOOL,
    TYPE_CUSTOM_START, TYPE_ENUM, TYPE_HASH_MAP, TYPE_HASH_SET, TYPE_I128, TYPE_I16, TYPE_I32,
    TYPE_I64, TYPE_I8, TYPE_OPTION, TYPE_RESULT, TYPE_STRING, TYPE_STRUCT, TYPE_TREE_MAP,
    TYPE_TREE_SET, TYPE_TUPLE, TYPE_U128, TYPE_U16, TYPE_U32, TYPE_U64, TYPE_U8, TYPE_UNIT,
    TYPE_VEC,
};

verus! {

/// A custom value met while reading: its custom tag, its body bytes, and where the body
/// starts in the input.
pub type CustomValue = (u8, Vec<u8>, usize);

/// The custom value's body is found in `bytes` at its recorded position.
pub open spec fn located(bytes: Seq<u8>, c: CustomValue) -> bool {
    &&& c.2 + c.1@.len() <= bytes.len()
    &&& bytes.subrange(c.2 as int, c.2 + c.1@.len()) == c.1@
}

/// The custom values from index `from` on lie in `bytes` between `lo` and `hi`, one after
/// another without overlap.
pub open spec fn laid_out(s: Seq<CustomValue>, from: int, bytes: Seq<u8>, lo: int, hi: int) -> bool {
    &&& forall|i: int| from <= i < s.len() ==> located(bytes, #[trigger] s[i])
    &&& forall|i: int| from <= i < s.len() ==> lo <= (#[trigger] s[i]).2 && s[i].2 + s[i].1@.len() <= hi
    &&& forall|i: int, j: int|
        from <= i < j < s.len() ==> (#[trigger] s[i]).2 + s[i].1@.len() <= (#[trigger] s[j]).2
}

/// The number of body bytes of a fixed-width primitive type, or 0 for any other tag.
pub open spec fn fixed_width(ty: u8) -> nat {
    if ty == TYPE_I8 || ty == TYPE_U8 || ty == TYPE_BOOL {
        1
    } else if ty == TYPE_I16 || ty == TYPE_U16 {
        2
    } else if ty == TYPE_I32 || ty == TYPE_U32 {
        4
    } else if ty == TYPE_I64 || ty == TYPE_U64 {
        8
    } else if ty == TYPE_I128 || ty == TYPE_U128 {
        16
    } else {
        0
    }
}

fn width_of(ty: u8) -> (r: usize)
    ensures
        r == fixed_width(ty),
{
    if ty == TYPE_I8 || ty == TYPE_U8 || ty == TYPE_BOOL {
        1
    } else if ty == TYPE_I16 || ty == TYPE_U16 {
        2
    } else if ty == TYPE_I32 || ty == TYPE_U32 {
        4
    } else if ty == TYPE_I64 || ty == TYPE_U64 {
        8
    } else if ty == TYPE_I128 || ty == TYPE_U128 {
        16
    } else {
        0
    }
}

/// `a` is `b` followed by more custom values, all in the custom tag space.
pub open spec fn extends(
    a: Seq<CustomValue>,
    b: Seq<CustomValue>,
    bytes: Seq<u8>,
    lo: int,
    hi: int,
) -> bool {
    &&& b.len() <= a.len()
    &&& a.take(b.len() as int) == b
    &&& forall|i: int| b.len() <= i < a.len() ==> (#[trigger] a[i]).0 >= TYPE_CUSTOM_START
    &&& laid_out(a, b.len() as int, bytes, lo, hi)
}

proof fn lemma_extends_refl(a: Seq<CustomValue>, bytes: Seq<u8>)
    ensures
        forall|lo: int, hi: int| #[trigger] extends(a, a, bytes, lo, hi),
{
    assert(a.take(a.len() as int) =~= a);
}

proof fn lemma_extends_weaken(
    a: Seq<CustomValue>,
    b: Seq<CustomValue>,
    bytes: Seq<u8>,
    lo: int,
    lo2: int,
    hi: int,
)
    requires
        extends(a, b, bytes, lo2, hi),
        lo <= lo2,
    ensures
        extends(a, b, bytes, lo, hi),
{
}

proof fn lemma_extends_trans(
    a: Seq<CustomValue>,
    b: Seq<CustomValue>,
    c: Seq<CustomValue>,
    bytes: Seq<u8>,
    lo: int,
    mid: int,
    hi: int,
)
    requires
        extends(a, b, bytes, mid, hi),
        extends(b, c, bytes, lo, mid),
        lo <= mid <= hi,
    ensures
        extends(a, c, bytes, lo, hi),
{
    assert forall|i: int| c.len() <= i < b.len() implies a[i] == b[i] by {
        assert(a.take(b.len() as int)[i] == a[i]);
    }
    assert forall|i: int, j: int|
        c.len() <= i < j < a.len() implies (#[trigger] a[i]).2 + a[i].1@.len() <= (
        #[trigger] a[j]).2 by {
        if j < b.len() {
            assert(a[i] == b[i] && a[j] == b[j]);
        } else if i < b.len() {
            assert(a[i] == b[i]);
        }
    }
    assert forall|i: int| c.len() <= i < a.len() implies located(bytes, #[trigger] a[i]) && lo
        <= a[i].2 && a[i].2 + a[i].1@.len() <= hi by {
        if i < b.len() {
            assert(a[i] == b[i]);
        }
    }
    assert(a.take(c.len() as int) =~= b.take(c.len() as int));
    assert forall|i: int| c.len() <= i < a.len() implies (#[trigger] a[i]).0 >= TYPE_CUSTOM_START by {
        if i < b.len() {
            assert(a.take(b.len() as int)[i] == a[i]);
            assert(b[i] == a[i]);
        }
    }
}

/// Why reading a value failed: a decode error, or two equal elements in a set, or two equal
/// keys in a map.
pub enum ScanFailure {
    Decode(DecodeError),
    DuplicateSet,
    DuplicateMap,
}

/// A custom value as the grammar sees it: tag, body, and where the body starts.
pub type SpecCustom = (u8, Seq<u8>, int);

/// Where reading a value stops and the custom values met on the way, or why it failed.
pub type ScanOutcome = Result<(int, Seq<SpecCustom>), ScanFailure>;

pub open spec fn view_custom(c: CustomValue) -> SpecCustom {
    (c.0, c.1@, c.2 as int)
}

pub open spec fn views(s: Seq<CustomValue>) -> Seq<SpecCustom> {
    s.map_values(|c: CustomValue| view_custom(c))
}

pub open spec fn span_views(s: Seq<(usize, usize)>) -> Seq<(int, int)> {
    s.map_values(|x: (usize, usize)| (x.0 as int, x.1 as int))
}

/// Too few bytes: `required` wanted, `remaining` left.
pub open spec fn underflow(required: int, remaining: int) -> ScanFailure {
    ScanFailure::Decode(
        DecodeError::Underflow { required: required as usize, remaining: remaining as usize },
    )
}

/// The four-byte little-endian length at `q`.
pub open spec fn len_at(b: Seq<u8>, q: int) -> int {
    spec_u32_from_le_bytes(b.subrange(q, q + 4)) as int
}

/// `pre` put in front of the custom values of a successful outcome.
pub open spec fn after(pre: Seq<SpecCustom>, o: ScanOutcome) -> ScanOutcome {
    match o {
        Ok((q, cs)) => Ok((q, pre + cs)),
        Err(e) => Err(e),
    }
}

/// Whether the bytes from `s` to `e` equal those of one of `spans`.
pub open spec fn same_span(b: Seq<u8>, spans: Seq<(int, int)>, s: int, e: int) -> bool {
    exists|i: int|
        0 <= i < spans.len() && b.subrange((#[trigger] spans[i]).0, spans[i].1) == b.subrange(s, e)
}

/// The grammar of one value at `p` in `b`: typed when `ty` is `None`, else the body of a
/// value of type `ty`. `f` bounds the nesting.
pub open spec fn spec_value(b: Seq<u8>, p: int, ty: Option<u8>, f: nat) -> ScanOutcome
    decreases f, 0x1_0000_0000int,
{
    let tq: Result<(u8, int), ScanFailure> = match ty {
        Some(t) => Ok((t, p)),
        None => if p < b.len() {
            Ok((b[p], p + 1))
        } else {
            Err(underflow(1, 0))
        },
    };
    match tq {
        Err(e) => Err(e),
        Ok((t, q)) => {
            let l = b.len() as int;
            if t == TYPE_UNIT {
                Ok((q, seq![]))
            } else if t == TYPE_BOOL {
                if q >= l {
                    Err(underflow(1, 0))
                } else if b[q] > 1 {
                    Err(ScanFailure::Decode(DecodeError::InvalidBool(b[q])))
                } else {
                    Ok((q + 1, seq![]))
                }
            } else if fixed_width(t) > 0 {
                if q + fixed_width(t) > l {
                    Err(underflow(fixed_width(t) as int, l - q))
                } else {
                    Ok((q + fixed_width(t), seq![]))
                }
            } else if t == TYPE_STRING {
                if q + 4 > l {
                    Err(underflow(4, l - q))
                } else if q + 4 + len_at(b, q) > l {
                    Err(underflow(len_at(b, q), l - q - 4))
                } else if utf8_text(b.subrange(q + 4, q + 4 + len_at(b, q))) is None {
                    Err(ScanFailure::Decode(DecodeError::InvalidUtf8))
                } else {
                    Ok((q + 4 + len_at(b, q), seq![]))
                }
            } else if t == TYPE_STRUCT || t == TYPE_TUPLE {
                if q + 4 > l {
                    Err(underflow(4, l - q))
                } else {
                    spec_seq(b, q + 4, None, len_at(b, q), f, false, seq![])
                }
            } else if t == TYPE_ENUM {
                if q + 4 > l {
                    Err(underflow(4, l - q))
                } else if q + 4 + len_at(b, q) > l {
                    Err(underflow(len_at(b, q), l - q - 4))
                } else if utf8_text(b.subrange(q + 4, q + 4 + len_at(b, q))) is None {
                    Err(ScanFailure::Decode(DecodeError::InvalidUtf8))
                } else {
                    let r = q + 4 + len_at(b, q);
                    if r + 4 > l {
                        Err(underflow(4, l - r))
                    } else {
                        spec_seq(b, r + 4, None, len_at(b, r), f, false, seq![])
                    }
                }
            } else if t == TYPE_OPTION {
                if q >= l {
                    Err(underflow(1, 0))
                } else if b[q] == OPTION_TYPE_NONE {
                    Ok((q + 1, seq![]))
                } else if b[q] == OPTION_TYPE_SOME {
                    spec_seq(b, q + 1, None, 1, f, false, seq![])
                } else {
                    Err(ScanFailure::Decode(DecodeError::InvalidIndex(b[q])))
                }
            } else if t == TYPE_RESULT {
                if q >= l {
                    Err(underflow(1, 0))
                } else if b[q] == RESULT_TYPE_OK || b[q] == RESULT_TYPE_ERR {
                    spec_seq(b, q + 1, None, 1, f, false, seq![])
                } else {
                    Err(ScanFailure::Decode(DecodeError::InvalidIndex(b[q])))
                }
            } else if t == TYPE_ARRAY || t == TYPE_VEC || t == TYPE_TREE_SET || t == TYPE_HASH_SET {
                if q >= l {
                    Err(underflow(1, 0))
                } else if q + 5 > l {
                    Err(underflow(4, l - q - 1))
                } else {
                    spec_seq(
                        b,
                        q + 5,
                        Some(b[q]),
                        len_at(b, q + 1),
                        f,
                        t == TYPE_TREE_SET || t == TYPE_HASH_SET,
                        seq![],
                    )
                }
            } else if t == TYPE_TREE_MAP || t == TYPE_HASH_MAP {
                if q >= l {
                    Err(underflow(1, 0))
                } else if q + 1 >= l {
                    Err(underflow(1, 0))
                } else if q + 6 > l {
                    Err(underflow(4, l - q - 2))
                } else {
                    spec_map(b, q + 6, b[q], b[q + 1], len_at(b, q + 2), f, seq![])
                }
            } else if t >= TYPE_CUSTOM_START {
                if q + 4 > l {
                    Err(underflow(4, l - q))
                } else if q + 4 + len_at(b, q) > l {
                    Err(underflow(len_at(b, q), l - q - 4))
                } else {
                    Ok(
                        (
                            q + 4 + len_at(b, q),
                            seq![(t, b.subrange(q + 4, q + 4 + len_at(b, q)), q + 4)],
                        ),
                    )
                }
            } else {
                Err(ScanFailure::Decode(DecodeError::InvalidType { expected: None, actual: t }))
            }
        },
    }
}

/// The grammar of `n` values one after another from `p`; with `dedup`, a value whose bytes
/// equal those of an earlier one (in `spans`, or met here) is a duplicate.
pub open spec fn spec_seq(
    b: Seq<u8>,
    p: int,
    ty: Option<u8>,
    n: int,
    f: nat,
    dedup: bool,
    spans: Seq<(int, int)>,
) -> ScanOutcome
    decreases f, n,
{
    if n <= 0 {
        Ok((p, seq![]))
    } else if f == 0 {
        Err(underflow(0, 0))
    } else {
        match spec_value(b, p, ty, (f - 1) as nat) {
            Err(e) => Err(e),
            Ok((p1, c1)) => if dedup && same_span(b, spans, p, p1) {
                Err(ScanFailure::DuplicateSet)
            } else {
                after(c1, spec_seq(b, p1, ty, n - 1, f, dedup, spans.push((p, p1))))
            },
        }
    }
}

/// The grammar of `n` key-value pairs from `p`; a key whose bytes equal those of an earlier
/// key is a duplicate.
pub open spec fn spec_map(
    b: Seq<u8>,
    p: int,
    k: u8,
    v: u8,
    n: int,
    f: nat,
    spans: Seq<(int, int)>,
) -> ScanOutcome
    decreases f, n,
{
    if n <= 0 {
        Ok((p, seq![]))
    } else if f == 0 {
        Err(underflow(0, 0))
    } else {
        match spec_value(b, p, Some(k), (f - 1) as nat) {
            Err(e) => Err(e),
            Ok((p1, c1)) => match spec_value(b, p1, Some(v), (f - 1) as nat) {
                Err(e) => Err(e),
                Ok((p2, c2)) => if same_span(b, spans, p, p1) {
                    Err(ScanFailure::DuplicateMap)
                } else {
                    after(c1 + c2, spec_map(b, p2, k, v, n - 1, f, spans.push((p, p1))))
                },
            },
        }
    }
}

/// The text of the error for two equal elements in a set.
pub open spec fn duplicate_set_text() -> Seq<char> {
    "Duplicate set entries"@
}

/// The text of the error for two equal keys in a map.
pub open spec fn duplicate_map_text() -> Seq<char> {
    "Duplicate map entries"@
}

/// The error that a reader returns for a failure of the grammar.
pub open spec fn fails_with(err: DecodeError, e: ScanFailure) -> bool {
    match e {
        ScanFailure::Decode(d) => err == d,
        ScanFailure::DuplicateSet => err is CustomError && err->CustomError_0@
            == duplicate_set_text(),
        ScanFailure::DuplicateMap => err is CustomError && err->CustomError_0@
            == duplicate_map_text(),
    }
}

/// A reader's result reports the failure `e`.
pub open spec fn reports(r: Result<(), DecodeError>, e: ScanFailure) -> bool {
    r is Err && fails_with(r->Err_0, e)
}

/// What reading a whole typed value from `b` gives: the custom values inside it, or why it
/// failed; every byte must be used.
pub open spec fn any_outcome(b: Seq<u8>) -> Result<Seq<SpecCustom>, ScanFailure> {
    match spec_value(b, 0, None, b.len()) {
        Ok((q, cs)) => if q == b.len() {
            Ok(cs)
        } else {
            Err(ScanFailure::Decode(DecodeError::NotAllBytesUsed((b.len() - q) as usize)))
        },
        Err(e) => Err(e),
    }
}

/// A reader's result, cursor and custom values agree with the grammar's outcome `o`.
pub open spec fn agrees(
    o: ScanOutcome,
    r: Result<(), DecodeError>,
    pos: int,
    before: Seq<CustomValue>,
    now: Seq<CustomValue>,
) -> bool {
    match o {
        Ok((q, cs)) => r is Ok && pos == q && views(now) == views(before) + cs,
        Err(e) => reports(r, e),
    }
}

proof fn lemma_after_after(a: Seq<SpecCustom>, c: Seq<SpecCustom>, o: ScanOutcome)
    ensures
        after(a, after(c, o)) == after(a + c, o),
{
    match o {
        Ok((q, cs)) => {
            assert(a + (c + cs) =~= (a + c) + cs);
        },
        Err(e) => {},
    }
}

proof fn lemma_views_push(s: Seq<CustomValue>, c: CustomValue)
    ensures
        views(s.push(c)) == views(s) + seq![view_custom(c)],
{
    assert(views(s.push(c)) =~= views(s) + seq![view_custom(c)]);
}

proof fn lemma_rest_take(d: Decoder, n: int)
    requires
        d.wf(),
        0 <= n,
    ensures
        d.pos() + n <= d.bytes().len() ==> d.rest().take(n) == d.bytes().subrange(
            d.pos(),
            d.pos() + n,
        ),
{
    if d.pos() + n <= d.bytes().len() {
        assert(d.rest().take(n) =~= d.bytes().subrange(d.pos(), d.pos() + n));
    }
}

/// Whether the bytes from `s` to `e` of `b` equal those of one of `spans`.
fn span_seen(b: &[u8], spans: &Vec<(usize, usize)>, s: usize, e: usize) -> (r: bool)
    requires
        s <= e <= b@.len(),
        forall|i: int| 0 <= i < spans@.len() ==> (#[trigger] spans@[i]).0 <= spans@[i].1 <= b@.len(),
    ensures
        r == same_span(b@, span_views(spans@), s as int, e as int),
{
    let mut i: usize = 0;
    while i < spans.len()
        invariant
            s <= e <= b@.len(),
            forall|k: int| 0 <= k < spans@.len() ==> (#[trigger] spans@[k]).0 <= spans@[k].1 <= b@.len(),
            i <= spans@.len(),
            forall|k: int|
                0 <= k < i ==> b@.subrange(
                    (#[trigger] span_views(spans@)[k]).0,
                    span_views(spans@)[k].1,
                ) != b@.subrange(s as int, e as int),
        decreases spans@.len() - i,
    {
        let (a, z) = spans[i];
        if z - a == e - s {
            let mut j: usize = 0;
            let mut same = true;
            while j < z - a
                invariant
                    a <= z <= b@.len(),
                    s <= e <= b@.len(),
                    z - a == e - s,
                    j <= z - a,
                    same ==> forall|m: int|
                        0 <= m < j ==> #[trigger] b@.subrange(a as int, z as int)[m] == b@.subrange(
                            s as int,
                            e as int,
                        )[m],
                    !same ==> b@.subrange(a as int, z as int) != b@.subrange(s as int, e as int),
                decreases z - a - j,
            {
                if b[a + j] != b[s + j] {
                    proof {
                        assert(b@.subrange(a as int, z as int)[j as int] == b@[a + j]);
                        assert(b@.subrange(s as int, e as int)[j as int] == b@[s + j]);
                    }
                    same = false;
                }
                j = j + 1;
            }
            if same {
                proof {
                    assert(b@.subrange(a as int, z as int) =~= b@.subrange(s as int, e as int));
                    assert(span_views(spans@)[i as int] == (a as int, z as int));
                }
                return true;
            }
        } else {
            proof {
                assert(b@.subrange(a as int, z as int).len() != b@.subrange(s as int, e as int).len());
            }
        }
        proof {
            assert(span_views(spans@)[i as int] == (a as int, z as int));
        }
        i = i + 1;
    }
    false
}

/// Reads `len` values one after another, each typed when `ty` is `None`, else with body of
/// type `ty`, collecting their custom values. With `dedup`, a value equal to an earlier one
/// is refused.
fn scan_seq(
    decoder: &mut Decoder,
    ty: Option<u8>,
    len: usize,
    dedup: bool,
    customs: &mut Vec<CustomValue>,
    Ghost(bound): Ghost<int>,
) -> (r: Result<(), DecodeError>)
    requires
        old(decoder).wf(),
        old(decoder).rest().len() < bound,
    ensures
        old(decoder).moved_on(final(decoder)),
        extends(
            final(customs)@,
            old(customs)@,
            old(decoder).bytes(),
            old(decoder).pos(),
            final(decoder).pos(),
        ),
        agrees(
            spec_seq(old(decoder).bytes(), old(decoder).pos(), ty, len as int, bound as nat, dedup, seq![]),
            r,
            final(decoder).pos(),
            old(customs)@,
            final(customs)@,
        ),
    decreases bound, 0int,
{
    proof {
        lemma_extends_refl(old(customs)@, old(decoder).bytes());
    }
    let ghost b = old(decoder).bytes();
    let ghost whole = spec_seq(b, old(decoder).pos(), ty, len as int, bound as nat, dedup, seq![]);
    let ghost mut acc: Seq<SpecCustom> = seq![];
    let mut spans: Vec<(usize, usize)> = Vec::new();
    let mut i: usize = 0;
    proof {
        assert(views(customs@) =~= views(old(customs)@) + acc);
        match spec_seq(b, old(decoder).pos(), ty, len as int, bound as nat, dedup, seq![]) {
            Ok((q, cs)) => {
                assert(acc + cs =~= cs);
            },
            Err(e) => {},
        }
        assert(span_views(spans@) =~= Seq::<(int, int)>::empty());
    }
    while i < len
        invariant
            old(decoder).wf(),
            old(decoder).moved_on(decoder),
            old(decoder).rest().len() < bound,
            b == old(decoder).bytes(),
            extends(customs@, old(customs)@, old(decoder).bytes(), old(decoder).pos(), decoder.pos()),
            i <= len,
            views(customs@) == views(old(customs)@) + acc,
            whole == spec_seq(b, old(decoder).pos(), ty, len as int, bound as nat, dedup, seq![]),
            whole == after(
                acc,
                spec_seq(b, decoder.pos(), ty, len - i, bound as nat, dedup, span_views(spans@)),
            ),
            forall|k: int|
                0 <= k < spans@.len() ==> (#[trigger] spans@[k]).0 <= spans@[k].1 <= b.len(),
        decreases len - i,
    {
        proof {
            assert(decoder.rest().len() <= old(decoder).rest().len());
        }
        let before = decoder.position();
        let ghost cbefore = customs@;
        let res = scan_value(decoder, ty, customs, Ghost(bound - 1));
        proof {
            lemma_extends_trans(
                customs@,
                cbefore,
                old(customs)@,
                old(decoder).bytes(),
                old(decoder).pos(),
                before as int,
                decoder.pos(),
            );
        }
        if res.is_err() {
            proof {
                let o = spec_value(b, before as int, ty, (bound - 1) as nat);
                assert(o is Err);
                assert(spec_seq(b, before as int, ty, len - i, bound as nat, dedup, span_views(spans@))
                    == o);
            }
            return res;
        }
        let end = decoder.position();
        if dedup {
            if span_seen(decoder.input(), &spans, before, end) {
                proof {
                    assert(spec_seq(b, before as int, ty, len - i, bound as nat, dedup, span_views(spans@))
                        == Err::<(int, Seq<SpecCustom>), ScanFailure>(ScanFailure::DuplicateSet));
                }
                return Err(DecodeError::CustomError("Duplicate set entries".to_owned()));
            }
        }
        let ghost c1 = views(customs@).skip(views(cbefore).len() as int);
        proof {
            let o = spec_value(b, before as int, ty, (bound - 1) as nat);
            assert(views(customs@) == views(cbefore) + o->Ok_0.1);
            assert(c1 =~= o->Ok_0.1);
            assert(o == Ok::<(int, Seq<SpecCustom>), ScanFailure>((end as int, c1)));
            assert(spec_seq(b, before as int, ty, len - i, bound as nat, dedup, span_views(spans@))
                == after(c1, spec_seq(b, end as int, ty, len - i - 1, bound as nat, dedup, span_views(spans@).push((before as int, end as int)))));
            assert(views(customs@) =~= views(cbefore) + c1);
            lemma_after_after(
                acc,
                c1,
                spec_seq(b, end as int, ty, len - i - 1, bound as nat, dedup, span_views(spans@).push((before as int, end as int))),
            );
            acc = acc + c1;
            assert(views(customs@) =~= views(old(customs)@) + acc);
        }
        let ghost prev = spans@;
        spans.push((before, end));
        proof {
            assert(span_views(spans@) =~= span_views(prev).push((before as int, end as int)));
        }
        i = i + 1;
    }
    Ok(())
}

/// Reads `len` key-value pairs, keys of type `key` and values of type `value`, collecting
/// their custom values; a key equal to an earlier one is refused.
fn scan_map(
    decoder: &mut Decoder,
    key: u8,
    value: u8,
    len: usize,
    customs: &mut Vec<CustomValue>,
    Ghost(bound): Ghost<int>,
) -> (r: Result<(), DecodeError>)
    requires
        old(decoder).wf(),
        old(decoder).rest().len() < bound,
    ensures
        old(decoder).moved_on(final(decoder)),
        extends(
            final(customs)@,
            old(customs)@,
            old(decoder).bytes(),
            old(decoder).pos(),
            final(decoder).pos(),
        ),
        agrees(
            spec_map(old(decoder).bytes(), old(decoder).pos(), key, value, len as int, bound as nat, seq![]),
            r,
            final(decoder).pos(),
            old(customs)@,
            final(customs)@,
        ),
    decreases bound, 0int,
{
    proof {
        lemma_extends_refl(old(customs)@, old(decoder).bytes());
    }
    let ghost b = old(decoder).bytes();
    let ghost whole = spec_map(b, old(decoder).pos(), key, value, len as int, bound as nat, seq![]);
    let ghost mut acc: Seq<SpecCustom> = seq![];
    let mut spans: Vec<(usize, usize)> = Vec::new();
    proof {
        assert(views(customs@) =~= views(old(customs)@) + acc);
        match whole {
            Ok((q, cs)) => {
                assert(acc + cs =~= cs);
            },
            Err(e) => {},
        }
        assert(span_views(spans@) =~= Seq::<(int, int)>::empty());
    }
    let mut i: usize = 0;
    while i < len
        invariant
            old(decoder).wf(),
            old(decoder).moved_on(decoder),
            old(decoder).rest().len() < bound,
            b == old(decoder).bytes(),
            extends(customs@, old(customs)@, b, old(decoder).pos(), decoder.pos()),
            i <= len,
            views(customs@) == views(old(customs)@) + acc,
            whole == spec_map(b, old(decoder).pos(), key, value, len as int, bound as nat, seq![]),
            whole == after(
                acc,
                spec_map(b, decoder.pos(), key, value, len - i, bound as nat, span_views(spans@)),
            ),
            forall|k: int|
                0 <= k < spans@.len() ==> (#[trigger] spans@[k]).0 <= spans@[k].1 <= b.len(),
        decreases len - i,
    {
        proof {
            assert(decoder.rest().len() <= old(decoder).rest().len());
        }
        let before = decoder.position();
        let ghost c0 = customs@;
        let res = scan_value(decoder, Some(key), customs, Ghost(bound - 1));
        proof {
            lemma_extends_trans(customs@, c0, old(customs)@, b, old(decoder).pos(), before as int, decoder.pos());
        }
        if res.is_err() {
            proof {
                let o = spec_value(b, before as int, Some(key), (bound - 1) as nat);
                assert(spec_map(b, before as int, key, value, len - i, bound as nat, span_views(spans@))
                    == o);
            }
            return res;
        }
        let mid = decoder.position();
        let ghost c1 = customs@;
        proof {
            assert(decoder.rest().len() <= old(decoder).rest().len());
        }
        let res = scan_value(decoder, Some(value), customs, Ghost(bound - 1));
        proof {
            lemma_extends_trans(customs@, c1, old(customs)@, b, old(decoder).pos(), mid as int, decoder.pos());
        }
        let ghost ok = spec_value(b, before as int, Some(key), (bound - 1) as nat);
        let ghost ck = views(c1).skip(views(c0).len() as int);
        proof {
            assert(views(c1) == views(c0) + ok->Ok_0.1);
            assert(ck =~= ok->Ok_0.1);
            assert(ok == Ok::<(int, Seq<SpecCustom>), ScanFailure>((mid as int, ck)));
        }
        if res.is_err() {
            proof {
                let o = spec_value(b, mid as int, Some(value), (bound - 1) as nat);
                assert(spec_map(b, before as int, key, value, len - i, bound as nat, span_views(spans@))
                    == o);
            }
            return res;
        }
        let end = decoder.position();
        if span_seen(decoder.input(), &spans, before, mid) {
            proof {
                assert(spec_map(b, before as int, key, value, len - i, bound as nat, span_views(spans@))
                    == Err::<(int, Seq<SpecCustom>), ScanFailure>(ScanFailure::DuplicateMap));
            }
            return Err(DecodeError::CustomError("Duplicate map entries".to_owned()));
        }
        let ghost cv = views(customs@).skip(views(c1).len() as int);
        proof {
            let ov = spec_value(b, mid as int, Some(value), (bound - 1) as nat);
            assert(views(customs@) == views(c1) + ov->Ok_0.1);
            assert(cv =~= ov->Ok_0.1);
            assert(ov == Ok::<(int, Seq<SpecCustom>), ScanFailure>((end as int, cv)));
            assert(spec_map(b, before as int, key, value, len - i, bound as nat, span_views(spans@))
                == after(ck + cv, spec_map(b, end as int, key, value, len - i - 1, bound as nat, span_views(spans@).push((before as int, mid as int)))));
            lemma_after_after(
                acc,
                ck + cv,
                spec_map(b, end as int, key, value, len - i - 1, bound as nat, span_views(spans@).push((before as int, mid as int))),
            );
            acc = acc + (ck + cv);
            assert(views(customs@) =~= views(old(customs)@) + acc);
        }
        let ghost prev = spans@;
        spans.push((before, mid));
        proof {
            assert(span_views(spans@) =~= span_views(prev).push((before as int, mid as int)));
        }
        i = i + 1;
    }
    Ok(())
}

/// Reads one value, typed when `ty` is `None`, else the body of a value of type `ty`, as the
/// grammar `spec_value` says; appends the custom values inside it, in order, each with the
/// position of its body in the input.
pub fn scan_value(
    decoder: &mut Decoder,
    ty: Option<u8>,
    customs: &mut Vec<CustomValue>,
    Ghost(bound): Ghost<int>,
) -> (r: Result<(), DecodeError>)
    requires
        old(decoder).wf(),
        old(decoder).rest().len() <= bound,
    ensures
        old(decoder).moved_on(final(decoder)),
        extends(
            final(customs)@,
            old(customs)@,
            old(decoder).bytes(),
            old(decoder).pos(),
            final(decoder).pos(),
        ),
        agrees(
            spec_value(old(decoder).bytes(), old(decoder).pos(), ty, bound as nat),
            r,
            final(decoder).pos(),
            old(customs)@,
            final(customs)@,
        ),
    decreases bound, 1int,
{
    let ghost first = customs@;
    let ghost bytes = decoder.bytes();
    let ghost lo = decoder.pos();
    let ghost whole = spec_value(bytes, lo, ty, bound as nat);
    proof {
        lemma_extends_refl(first, bytes);
        assert(views(first) + Seq::<SpecCustom>::empty() =~= views(first));
    }
    let t = match ty {
        Some(t) => t,
        None => decoder.read_type()?,
    };
    let w = width_of(t);
    if t == TYPE_UNIT {
        Ok(())
    } else if t == TYPE_BOOL {
        let v = decoder.read_u8()?;
        if v > 1 {
            return Err(DecodeError::InvalidBool(v));
        }
        Ok(())
    } else if w > 0 {
        decoder.read_bytes(w)?;
        Ok(())
    } else if t == TYPE_STRING {
        proof { lemma_rest_take(*decoder, 4); }
        let len = decoder.read_len()?;
        proof { lemma_rest_take(*decoder, len as int); }
        let body = decoder.read_bytes(len)?;
        match string_from_utf8(slice_to_vec(body)) {
            Some(_) => Ok(()),
            None => Err(DecodeError::InvalidUtf8),
        }
    } else if t == TYPE_STRUCT || t == TYPE_TUPLE {
        proof { lemma_rest_take(*decoder, 4); }
        let len = decoder.read_len()?;
        let ghost mid = decoder.pos();
        let res = scan_seq(decoder, None, len, false, customs, Ghost(bound));
        proof {
            lemma_extends_weaken(customs@, first, bytes, lo, mid, decoder.pos());
        }
        res
    } else if t == TYPE_ENUM {
        proof { lemma_rest_take(*decoder, 4); }
        let name_len = decoder.read_len()?;
        proof { lemma_rest_take(*decoder, name_len as int); }
        let name = decoder.read_bytes(name_len)?;
        if string_from_utf8(slice_to_vec(name)).is_none() {
            return Err(DecodeError::InvalidUtf8);
        }
        proof { lemma_rest_take(*decoder, 4); }
        let len = decoder.read_len()?;
        let ghost mid = decoder.pos();
        let res = scan_seq(decoder, None, len, false, customs, Ghost(bound));
        proof {
            lemma_extends_weaken(customs@, first, bytes, lo, mid, decoder.pos());
        }
        res
    } else if t == TYPE_OPTION {
        let index = decoder.read_u8()?;
        if index == OPTION_TYPE_NONE {
            Ok(())
        } else if index == OPTION_TYPE_SOME {
            let ghost mid = decoder.pos();
            let res = scan_seq(decoder, None, 1, false, customs, Ghost(bound));
            proof {
                lemma_extends_weaken(customs@, first, bytes, lo, mid, decoder.pos());
            }
            res
        } else {
            Err(DecodeError::InvalidIndex(index))
        }
    } else if t == TYPE_RESULT {
        let index = decoder.read_u8()?;
        if index == RESULT_TYPE_OK || index == RESULT_TYPE_ERR {
            let ghost mid = decoder.pos();
            let res = scan_seq(decoder, None, 1, false, customs, Ghost(bound));
            proof {
                lemma_extends_weaken(customs@, first, bytes, lo, mid, decoder.pos());
            }
            res
        } else {
            Err(DecodeError::InvalidIndex(index))
        }
    } else if t == TYPE_ARRAY || t == TYPE_VEC || t == TYPE_TREE_SET || t == TYPE_HASH_SET {
        let element = decoder.read_type()?;
        proof { lemma_rest_take(*decoder, 4); }
        let len = decoder.read_len()?;
        let ghost mid = decoder.pos();
        let res = scan_seq(
            decoder,
            Some(element),
            len,
            t == TYPE_TREE_SET || t == TYPE_HASH_SET,
            customs,
            Ghost(bound),
        );
        proof {
            lemma_extends_weaken(customs@, first, bytes, lo, mid, decoder.pos());
        }
        res
    } else if t == TYPE_TREE_MAP || t == TYPE_HASH_MAP {
        let key = decoder.read_type()?;
        let value = decoder.read_type()?;
        proof { lemma_rest_take(*decoder, 4); }
        let len = decoder.read_len()?;
        let ghost mid = decoder.pos();
        let res = scan_map(decoder, key, value, len, customs, Ghost(bound));
        proof {
            lemma_extends_weaken(customs@, first, bytes, lo, mid, decoder.pos());
        }
        res
    } else if t >= TYPE_CUSTOM_START {
        proof { lemma_rest_take(*decoder, 4); }
        let len = decoder.read_len()?;
        let at = decoder.position();
        proof { lemma_rest_take(*decoder, len as int); }
        let body = decoder.read_bytes(len)?;
        let ghost before = customs@;
        customs.push((t, slice_to_vec(body), at));
        proof {
            assert(customs@.take(first.len() as int) =~= first);
            assert(bytes.subrange(at as int, at + len) =~= body@);
            lemma_views_push(before, customs@[before.len() as int]);
            assert(customs@ =~= before.push(customs@[before.len() as int]));
        }
        Ok(())
    } else {
        Err(DecodeError::InvalidType { expected: None, actual: t })
    }
}

/// Reads one whole typed value from `slice`: it must be well formed and use every byte.
/// Gives the custom values inside it, in the order they are met, each with the position of
/// its body in `slice`; the bodies follow one another without overlap.
pub fn decode_any(slice: &[u8]) -> (r: Result<Vec<CustomValue>, DecodeError>)
    ensures
        match any_outcome(slice@) {
            Ok(cs) => r is Ok && views(r->Ok_0@) == cs,
            Err(e) => r is Err && fails_with(r->Err_0, e),
        },
        r is Ok ==> forall|i: int|
            0 <= i < r->Ok_0@.len() ==> (#[trigger] r->Ok_0@[i]).0 >= TYPE_CUSTOM_START,
        r is Ok ==> laid_out(r->Ok_0@, 0, slice@, 0, slice@.len() as int),
{
    let mut decoder = Decoder::with_type(slice);
    let mut customs: Vec<CustomValue> = Vec::new();
    scan_value(&mut decoder, None, &mut customs, Ghost(slice@.len() as int))?;
    decoder.check_end()?;
    proof {
        assert(extends(customs@, Seq::<CustomValue>::empty(), slice@, 0, slice@.len() as int));
    }
    Ok(customs)
}

} // verus!
