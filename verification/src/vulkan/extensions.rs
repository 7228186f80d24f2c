//! Lists of Vulkan extension names, kept sorted by their bytes (the order of
//! `CStr`) and free of repeats.
use vstd::prelude::*;

verus! {

/// Byte-wise lexicographic order, a proper prefix first: the order of `CStr`.
pub open spec fn lex_lt(a: Seq<u8>, b: Seq<u8>) -> bool
    decreases a.len(),
{
    if a.len() == 0 {
        b.len() > 0
    } else if b.len() == 0 {
        false
    } else if a[0] != b[0] {
        a[0] < b[0]
    } else {
        lex_lt(a.drop_first(), b.drop_first())
    }
}

/// The names of a list of extensions.
pub open spec fn names_view(v: Seq<Vec<u8>>) -> Seq<Seq<u8>> {
    v.map_values(|n: Vec<u8>| n@)
}

/// Each name is below the next: sorted, with no repeats.
pub open spec fn strictly_sorted(s: Seq<Seq<u8>>) -> bool {
    forall|i: int, j: int| 0 <= i < j < s.len() ==> lex_lt(#[trigger] s[i], #[trigger] s[j])
}

/// No name is below itself.
pub proof fn lemma_lex_irreflexive(a: Seq<u8>)
    ensures
        !lex_lt(a, a),
    decreases a.len(),
{
    if a.len() > 0 {
        lemma_lex_irreflexive(a.drop_first());
    }
}

/// The order is transitive.
pub proof fn lemma_lex_transitive(a: Seq<u8>, b: Seq<u8>, c: Seq<u8>)
    requires
        lex_lt(a, b),
        lex_lt(b, c),
    ensures
        lex_lt(a, c),
    decreases a.len(),
{
    if a.len() > 0 && b.len() > 0 && c.len() > 0 && a[0] == b[0] && b[0] == c[0] {
        lemma_lex_transitive(a.drop_first(), b.drop_first(), c.drop_first());
    }
}

/// Of two different names one is below the other.
pub proof fn lemma_lex_total(a: Seq<u8>, b: Seq<u8>)
    requires
        a != b,
    ensures
        lex_lt(a, b) || lex_lt(b, a),
    decreases a.len(),
{
    if a.len() > 0 && b.len() > 0 && a[0] == b[0] {
        if a.drop_first() == b.drop_first() {
            assert(a =~= seq![a[0]] + a.drop_first());
            assert(b =~= seq![b[0]] + b.drop_first());
        }
        lemma_lex_total(a.drop_first(), b.drop_first());
    } else if a.len() == 0 && b.len() == 0 {
        assert(a =~= b);
    }
}

/// Two sorted name lists with the same names are the same list.
pub proof fn lemma_strictly_sorted_unique(a: Seq<Seq<u8>>, b: Seq<Seq<u8>>)
    requires
        strictly_sorted(a),
        strictly_sorted(b),
        forall|x: Seq<u8>| a.contains(x) <==> b.contains(x),
    ensures
        a == b,
    decreases a.len(),
{
    if a.len() == 0 {
        if b.len() > 0 {
            assert(b.contains(b[0]));
        }
        assert(a =~= b);
    } else if b.len() == 0 {
        assert(a.contains(a[0]));
    } else {
        assert(a.contains(a[0]));
        assert(b.contains(b[0]));
        if a[0] != b[0] {
            let j = choose|j: int| 0 <= j < b.len() && b[j] == a[0];
            let i = choose|i: int| 0 <= i < a.len() && a[i] == b[0];
            assert(lex_lt(b[0], b[j]));
            assert(lex_lt(a[0], a[i]));
            lemma_lex_transitive(a[0], b[0], a[0]);
            lemma_lex_irreflexive(a[0]);
        }
        let ra = a.drop_first();
        let rb = b.drop_first();
        assert forall|x: Seq<u8>| ra.contains(x) <==> rb.contains(x) by {
            if ra.contains(x) {
                let i = choose|i: int| 0 <= i < ra.len() && ra[i] == x;
                assert(a[i + 1] == x);
                assert(a.contains(x));
                let j = choose|j: int| 0 <= j < b.len() && b[j] == x;
                if j == 0 {
                    assert(lex_lt(a[0], a[i + 1]));
                    lemma_lex_irreflexive(x);
                }
                assert(rb[j - 1] == x);
            }
            if rb.contains(x) {
                let j = choose|j: int| 0 <= j < rb.len() && rb[j] == x;
                assert(b[j + 1] == x);
                assert(b.contains(x));
                let i = choose|i: int| 0 <= i < a.len() && a[i] == x;
                if i == 0 {
                    assert(lex_lt(b[0], b[j + 1]));
                    lemma_lex_irreflexive(x);
                }
                assert(ra[i - 1] == x);
            }
        }
        lemma_strictly_sorted_unique(ra, rb);
        assert(a =~= seq![a[0]] + ra);
        assert(b =~= seq![b[0]] + rb);
    }
}

/// Whether `a` comes before `b` in `CStr` order.
fn bytes_lt(a: &Vec<u8>, b: &Vec<u8>) -> (r: bool)
    ensures
        r == lex_lt(a@, b@),
{
    let mut i: usize = 0;
    assert(a@.skip(0) =~= a@);
    assert(b@.skip(0) =~= b@);
    while i < a.len() && i < b.len()
        invariant
            i <= a.len(),
            i <= b.len(),
            lex_lt(a@, b@) == lex_lt(a@.skip(i as int), b@.skip(i as int)),
        decreases a.len() - i,
    {
        assert(a@.skip(i as int)[0] == a@[i as int]);
        assert(b@.skip(i as int)[0] == b@[i as int]);
        if a[i] != b[i] {
            return a[i] < b[i];
        }
        assert(a@.skip(i as int).drop_first() =~= a@.skip(i + 1));
        assert(b@.skip(i as int).drop_first() =~= b@.skip(i + 1));
        i = i + 1;
    }
    i < b.len()
}

/// Whether two names are equal.
fn bytes_eq(a: &Vec<u8>, b: &Vec<u8>) -> (r: bool)
    ensures
        r == (a@ == b@),
{
    if a.len() != b.len() {
        return false;
    }
    let mut i: usize = 0;
    while i < a.len()
        invariant
            i <= a.len(),
            a.len() == b.len(),
            forall|k: int| 0 <= k < i ==> a@[k] == b@[k],
        decreases a.len() - i,
    {
        if a[i] != b[i] {
            return false;
        }
        i = i + 1;
    }
    assert(a@ =~= b@);
    true
}

/// A copy of a name.
fn copy_bytes(v: &Vec<u8>) -> (r: Vec<u8>)
    ensures
        r@ == v@,
{
    let mut r: Vec<u8> = Vec::new();
    let mut k: usize = 0;
    while k < v.len()
        invariant
            k <= v.len(),
            r@ == v@.take(k as int),
        decreases v.len() - k,
    {
        r.push(v[k]);
        k = k + 1;
        assert(r@ =~= v@.take(k as int));
    }
    assert(v@.take(v.len() as int) =~= v@);
    r
}

/// Whether `names` holds `name`.
fn contains_name(names: &Vec<Vec<u8>>, name: &Vec<u8>) -> (r: bool)
    ensures
        r == names_view(names@).contains(name@),
{
    let mut i: usize = 0;
    while i < names.len()
        invariant
            i <= names.len(),
            forall|k: int| 0 <= k < i ==> names_view(names@)[k] != name@,
        decreases names.len() - i,
    {
        if bytes_eq(&names[i], name) {
            assert(names_view(names@)[i as int] == name@);
            return true;
        }
        i = i + 1;
    }
    false
}

/// Adds `name` to a sorted list unless it is there already.
fn insert_sorted(names: &mut Vec<Vec<u8>>, name: Vec<u8>)
    requires
        strictly_sorted(names_view(old(names)@)),
    ensures
        strictly_sorted(names_view(final(names)@)),
        forall|x: Seq<u8>| #[trigger]
            names_view(final(names)@).contains(x) <==> (names_view(old(names)@).contains(x) || x == name@),
{
    let ghost s = names_view(names@);
    let mut k: usize = 0;
    while k < names.len()
        invariant
            k <= names.len(),
            s == names_view(names@),
            forall|i: int| 0 <= i < k ==> lex_lt(#[trigger] s[i], name@),
        ensures
            k <= names.len(),
            s == names_view(names@),
            forall|i: int| 0 <= i < k ==> lex_lt(#[trigger] s[i], name@),
            k < names.len() ==> !lex_lt(s[k as int], name@),
        decreases names.len() - k,
    {
        if !bytes_lt(&names[k], &name) {
            break;
        }
        k = k + 1;
    }
    if k < names.len() && bytes_eq(&names[k], &name) {
        assert(s[k as int] == name@);
        assert forall|x: Seq<u8>| #[trigger] names_view(names@).contains(x) <==> (s.contains(x)
            || x == name@) by {
            if x == name@ {
                assert(s[k as int] == x);
            }
        }
        return;
    }
    let ghost nv = name@;
    proof {
        if k < s.len() {
            lemma_lex_total(s[k as int], nv);
        }
    }
    names.insert(k, name);
    let ghost r = names_view(names@);
    assert(r =~= s.insert(k as int, nv));
    assert forall|i: int, j: int| 0 <= i < j < r.len() implies lex_lt(#[trigger] r[i], #[trigger] r[j]) by {
        if j < k {
        } else if j == k {
        } else if i < k {
            assert(r[j] == s[j - 1]);
            lemma_lex_transitive(s[i], nv, s[k as int]);
            if j - 1 > k {
                lemma_lex_transitive(s[i], s[k as int], s[j - 1]);
            }
        } else if i == k {
            assert(r[j] == s[j - 1]);
            if j - 1 > k {
                lemma_lex_transitive(nv, s[k as int], s[j - 1]);
            }
        } else {
            assert(r[i] == s[i - 1] && r[j] == s[j - 1]);
        }
    }
    assert forall|x: Seq<u8>| #[trigger] r.contains(x) <==> (s.contains(x) || x == nv) by {
        if r.contains(x) {
            let i = choose|i: int| 0 <= i < r.len() && r[i] == x;
            if i < k {
                assert(s[i] == x);
            } else if i > k {
                assert(s[i - 1] == x);
            }
        }
        if s.contains(x) {
            let i = choose|i: int| 0 <= i < s.len() && s[i] == x;
            if i < k {
                assert(r[i] == x);
            } else {
                assert(r[i + 1] == x);
            }
        }
        if x == nv {
            assert(r[k as int] == x);
        }
    }
}

/// Adds to `dst` each extension of `src` that is supported and not yet there,
/// and leaves `dst` sorted in `CStr` order with every name once.
pub fn update_extensions(dst: &mut Vec<Vec<u8>>, src: &Vec<Vec<u8>>, supported: &Vec<Vec<u8>>)
    ensures
        strictly_sorted(names_view(final(dst)@)),
        forall|x: Seq<u8>| #[trigger]
            names_view(final(dst)@).contains(x) <==> (names_view(old(dst)@).contains(x) || (
            names_view(src@).contains(x) && names_view(supported@).contains(x))),
{
    let mut out: Vec<Vec<u8>> = Vec::new();
    let mut i: usize = 0;
    while i < dst.len()
        invariant
            i <= dst.len(),
            strictly_sorted(names_view(out@)),
            forall|x: Seq<u8>| #[trigger]
                names_view(out@).contains(x) <==> names_view(dst@).take(i as int).contains(x),
        decreases dst.len() - i,
    {
        let name = copy_bytes(&dst[i]);
        insert_sorted(&mut out, name);
        proof {
            let t = names_view(dst@).take(i + 1);
            assert(t =~= names_view(dst@).take(i as int).push(names_view(dst@)[i as int]));
            assert forall|x: Seq<u8>| #[trigger] t.contains(x) <==> (names_view(dst@).take(
                i as int,
            ).contains(x) || x == names_view(dst@)[i as int]) by {
                if t.contains(x) {
                    let k = choose|k: int| 0 <= k < t.len() && t[k] == x;
                    if k < i {
                        assert(names_view(dst@).take(i as int)[k] == x);
                    }
                }
                if names_view(dst@).take(i as int).contains(x) {
                    let k = choose|k: int| 0 <= k < i && names_view(dst@).take(i as int)[k] == x;
                    assert(t[k] == x);
                }
                if x == names_view(dst@)[i as int] {
                    assert(t[i as int] == x);
                }
            }
        }
        i = i + 1;
    }
    assert(names_view(dst@).take(dst.len() as int) =~= names_view(dst@));
    let mut j: usize = 0;
    while j < src.len()
        invariant
            j <= src.len(),
            strictly_sorted(names_view(out@)),
            forall|x: Seq<u8>| #[trigger]
                names_view(out@).contains(x) <==> (names_view(dst@).contains(x) || (names_view(src@).take(
                    j as int,
                ).contains(x) && names_view(supported@).contains(x))),
        decreases src.len() - j,
    {
        let ghost t = names_view(src@).take(j + 1);
        proof {
            assert forall|x: Seq<u8>| #[trigger] t.contains(x) <==> (names_view(src@).take(
                j as int,
            ).contains(x) || x == names_view(src@)[j as int]) by {
                if t.contains(x) {
                    let k = choose|k: int| 0 <= k < t.len() && t[k] == x;
                    if k < j {
                        assert(names_view(src@).take(j as int)[k] == x);
                    }
                }
                if names_view(src@).take(j as int).contains(x) {
                    let k = choose|k: int| 0 <= k < j && names_view(src@).take(j as int)[k] == x;
                    assert(t[k] == x);
                }
                if x == names_view(src@)[j as int] {
                    assert(t[j as int] == x);
                }
            }
        }
        if contains_name(supported, &src[j]) {
            let name = copy_bytes(&src[j]);
            insert_sorted(&mut out, name);
        }
        j = j + 1;
    }
    assert(names_view(src@).take(src.len() as int) =~= names_view(src@));
    *dst = out;
}

/// `update_extensions` fixes its result completely: any sorted list without
/// repeats that holds the same names is that result.
pub proof fn update_extensions_result_is_unique(result: Seq<Seq<u8>>, other: Seq<Seq<u8>>)
    requires
        strictly_sorted(result),
        strictly_sorted(other),
        forall|x: Seq<u8>| result.contains(x) <==> other.contains(x),
    ensures
        result == other,
{
    lemma_strictly_sorted_unique(result, other);
}

/// What `update_extensions` leaves: a sorted list without repeats of the names
/// that were there and the supported names of `src`.
pub open spec fn is_update_of(
    result: Seq<Seq<u8>>,
    dst: Seq<Seq<u8>>,
    src: Seq<Seq<u8>>,
    supported: Seq<Seq<u8>>,
) -> bool {
    &&& strictly_sorted(result)
    &&& forall|x: Seq<u8>| #[trigger]
        result.contains(x) <==> (dst.contains(x) || (src.contains(x) && supported.contains(x)))
}

/// Updating twice with the same extensions changes nothing more.
pub proof fn update_extensions_idempotent(
    once: Seq<Seq<u8>>,
    twice: Seq<Seq<u8>>,
    dst: Seq<Seq<u8>>,
    src: Seq<Seq<u8>>,
    supported: Seq<Seq<u8>>,
)
    requires
        is_update_of(once, dst, src, supported),
        is_update_of(twice, once, src, supported),
    ensures
        twice == once,
{
    assert forall|x: Seq<u8>| twice.contains(x) <==> once.contains(x) by {
        assert(twice.contains(x) <==> (once.contains(x) || (src.contains(x) && supported.contains(x))));
        assert(once.contains(x) <==> (dst.contains(x) || (src.contains(x) && supported.contains(x))));
    }
    lemma_strictly_sorted_unique(twice, once);
}

} // verus!
