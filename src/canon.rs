use vstd::prelude::*;

verus! {

/// A query parameter as Verus sees it: key and value as character sequences.
pub type PairView = (Seq<char>, Seq<char>);

pub open spec fn pair_view(p: (String, String)) -> PairView {
    (p.0@, p.1@)
}

pub open spec fn pairs_view(v: Seq<(String, String)>) -> Seq<PairView> {
    v.map_values(|p: (String, String)| pair_view(p))
}

/// Characters that stand in a query string as they are: ASCII letters and
/// digits and the unreserved marks `.`, `-`, `_` and `~`.
pub open spec fn safe_char(c: char) -> bool {
    ('a' <= c && c <= 'z') || ('A' <= c && c <= 'Z') || ('0' <= c && c <= '9') || c == '.'
        || c == '-' || c == '_' || c == '~'
}

pub open spec fn all_safe(s: Seq<char>) -> bool {
    forall|i: int| 0 <= i < s.len() ==> safe_char(#[trigger] s[i])
}

/// A parameter that needs no percent-encoding: a non-empty key, and key and
/// value made of safe characters only.
pub open spec fn pair_well_formed(p: PairView) -> bool {
    p.0.len() > 0 && all_safe(p.0) && all_safe(p.1)
}

pub open spec fn all_well_formed(p: Seq<PairView>) -> bool {
    forall|i: int| 0 <= i < p.len() ==> pair_well_formed(#[trigger] p[i])
}

/// Keys that the request adds itself and a caller may not supply.
pub open spec fn reserved_key(k: Seq<char>) -> bool {
    k == "timestamp"@ || k == "signature"@
}

pub open spec fn has_reserved_key(p: Seq<PairView>) -> bool {
    exists|i: int| 0 <= i < p.len() && reserved_key(#[trigger] p[i].0)
}

pub open spec fn has_duplicate_key(p: Seq<PairView>) -> bool {
    exists|i: int, j: int| 0 <= i < j < p.len() && #[trigger] p[i].0 == #[trigger] p[j].0
}

/// Strict lexicographic order on keys, character by character.
pub open spec fn key_lt(a: Seq<char>, b: Seq<char>) -> bool
    decreases a.len(),
{
    if a.len() == 0 {
        b.len() > 0
    } else if b.len() == 0 {
        false
    } else if a[0] != b[0] {
        a[0] < b[0]
    } else {
        key_lt(a.drop_first(), b.drop_first())
    }
}

/// Keys strictly ascending.
pub open spec fn sorted_by_key(s: Seq<PairView>) -> bool {
    forall|i: int, j: int| 0 <= i < j < s.len() ==> key_lt(#[trigger] s[i].0, #[trigger] s[j].0)
}

/// `s` holds exactly the parameters of `p`, in ascending key order.
pub open spec fn is_arrangement(s: Seq<PairView>, p: Seq<PairView>) -> bool {
    &&& sorted_by_key(s)
    &&& forall|e: PairView| #[trigger] s.contains(e) <==> p.contains(e)
}

/// The key-sorted arrangement of a parameter list.
pub open spec fn sorted_pairs(p: Seq<PairView>) -> Seq<PairView> {
    choose|s: Seq<PairView>| is_arrangement(s, p)
}

/// Decimal digit for a value below 10.
pub open spec fn digit_char(n: nat) -> char {
    (('0' as u8) + (n as u8)) as char
}

/// Decimal rendering of a natural number, without leading zeros.
pub open spec fn decimal_of(n: nat) -> Seq<char>
    decreases n,
{
    if n < 10 {
        seq![digit_char(n)]
    } else {
        decimal_of(n / 10) + seq![digit_char(n % 10)]
    }
}

/// `k1=v1&k2=v2&...&`, one `key=value&` for each pair in order.
pub open spec fn render_pairs(s: Seq<PairView>) -> Seq<char>
    decreases s.len(),
{
    if s.len() == 0 {
        Seq::empty()
    } else {
        render_pairs(s.drop_last()) + s.last().0 + "="@ + s.last().1 + "&"@
    }
}

/// The sorted pairs followed by the timestamp, which always comes last.
pub open spec fn render_query(s: Seq<PairView>, timestamp: u64) -> Seq<char> {
    render_pairs(s) + "timestamp="@ + decimal_of(timestamp as nat)
}

/// The canonical query string of a parameter list at a timestamp.
pub open spec fn canonical_query(p: Seq<PairView>, timestamp: u64) -> Seq<char> {
    render_query(sorted_pairs(p), timestamp)
}

pub proof fn lemma_key_lt_irreflexive(a: Seq<char>)
    ensures
        !key_lt(a, a),
    decreases a.len(),
{
    if a.len() > 0 {
        lemma_key_lt_irreflexive(a.drop_first());
    }
}

pub proof fn lemma_key_lt_asymmetric(a: Seq<char>, b: Seq<char>)
    ensures
        !(key_lt(a, b) && key_lt(b, a)),
    decreases a.len(),
{
    if a.len() > 0 && b.len() > 0 && a[0] == b[0] {
        lemma_key_lt_asymmetric(a.drop_first(), b.drop_first());
    }
}

pub proof fn lemma_key_lt_total(a: Seq<char>, b: Seq<char>)
    requires
        a != b,
    ensures
        key_lt(a, b) || key_lt(b, a),
    decreases a.len(),
{
    if a.len() == 0 {
        assert(b.len() > 0) by {
            if b.len() == 0 {
                assert(a =~= b);
            }
        }
    } else if b.len() > 0 && a[0] == b[0] {
        if a.drop_first() == b.drop_first() {
            assert(a =~= seq![a[0]] + a.drop_first());
            assert(b =~= seq![b[0]] + b.drop_first());
        }
        lemma_key_lt_total(a.drop_first(), b.drop_first());
    }
}

pub proof fn lemma_key_lt_transitive(a: Seq<char>, b: Seq<char>, c: Seq<char>)
    requires
        key_lt(a, b),
        key_lt(b, c),
    ensures
        key_lt(a, c),
    decreases a.len(),
{
    if a.len() > 0 && b.len() > 0 && c.len() > 0 && a[0] == b[0] && b[0] == c[0] {
        lemma_key_lt_transitive(a.drop_first(), b.drop_first(), c.drop_first());
    }
}

/// Two key-sorted sequences holding the same parameters are equal.
pub proof fn lemma_arrangement_unique(s1: Seq<PairView>, s2: Seq<PairView>)
    requires
        sorted_by_key(s1),
        sorted_by_key(s2),
        forall|e: PairView| #[trigger] s1.contains(e) <==> s2.contains(e),
    ensures
        s1 == s2,
    decreases s1.len(),
{
    if s1.len() == 0 {
        if s2.len() > 0 {
            assert(s2.contains(s2[0]));
            assert(s1.contains(s2[0]));
        }
        assert(s1 =~= s2);
    } else {
        assert(s1.contains(s1[0]));
        assert(s2.contains(s1[0]));
        let j = choose|j: int| 0 <= j < s2.len() && s2[j] == s1[0];
        assert(s2.contains(s2[0]));
        assert(s1.contains(s2[0]));
        let m = choose|m: int| 0 <= m < s1.len() && s1[m] == s2[0];
        if j > 0 {
            assert(key_lt(s2[0].0, s2[j].0));
            if m > 0 {
                assert(key_lt(s1[0].0, s1[m].0));
                lemma_key_lt_asymmetric(s1[0].0, s2[0].0);
            } else {
                lemma_key_lt_irreflexive(s1[0].0);
            }
        }
        assert(s1[0] == s2[0]);
        let t1 = s1.drop_first();
        let t2 = s2.drop_first();
        assert forall|e: PairView| #[trigger] t1.contains(e) <==> t2.contains(e) by {
            if t1.contains(e) {
                let i = choose|i: int| 0 <= i < t1.len() && t1[i] == e;
                assert(key_lt(s1[0].0, s1[i + 1].0));
                lemma_key_lt_irreflexive(e.0);
                assert(s1.contains(e));
                assert(s2.contains(e));
                let k = choose|k: int| 0 <= k < s2.len() && s2[k] == e;
                assert(k != 0);
                assert(t2[k - 1] == e);
            }
            if t2.contains(e) {
                let i = choose|i: int| 0 <= i < t2.len() && t2[i] == e;
                assert(key_lt(s2[0].0, s2[i + 1].0));
                lemma_key_lt_irreflexive(e.0);
                assert(s2.contains(e));
                assert(s1.contains(e));
                let k = choose|k: int| 0 <= k < s1.len() && s1[k] == e;
                assert(k != 0);
                assert(t1[k - 1] == e);
            }
        }
        lemma_arrangement_unique(t1, t2);
        assert(s1 =~= seq![s1[0]] + t1);
        assert(s2 =~= seq![s2[0]] + t2);
    }
}

spec fn insert_pos(s: Seq<PairView>, k: Seq<char>) -> int
    decreases s.len(),
{
    if s.len() == 0 || key_lt(k, s[0].0) {
        0
    } else {
        1 + insert_pos(s.drop_first(), k)
    }
}

proof fn lemma_insert_pos(s: Seq<PairView>, k: Seq<char>)
    requires
        sorted_by_key(s),
        forall|i: int| 0 <= i < s.len() ==> #[trigger] s[i].0 != k,
    ensures
        0 <= insert_pos(s, k) <= s.len(),
        forall|m: int| 0 <= m < insert_pos(s, k) ==> key_lt(#[trigger] s[m].0, k),
        insert_pos(s, k) < s.len() ==> key_lt(k, s[insert_pos(s, k)].0),
    decreases s.len(),
{
    if s.len() > 0 && !key_lt(k, s[0].0) {
        let t = s.drop_first();
        assert(s[0].0 != k);
        lemma_key_lt_total(s[0].0, k);
        assert forall|i: int, j: int| 0 <= i < j < t.len() implies key_lt(#[trigger] t[i].0, #[trigger] t[j].0) by {
            assert(key_lt(s[i + 1].0, s[j + 1].0));
        }
        assert forall|i: int| 0 <= i < t.len() implies #[trigger] t[i].0 != k by {
            assert(s[i + 1].0 != k);
        }
        lemma_insert_pos(t, k);
        assert forall|m: int| 0 <= m < insert_pos(s, k) implies key_lt(#[trigger] s[m].0, k) by {
            if m > 0 {
                assert(s[m] == t[m - 1]);
            }
        }
    }
}

/// Every parameter list without a repeated key has a key-sorted arrangement.
pub proof fn lemma_arrangement_exists(p: Seq<PairView>)
    requires
        !has_duplicate_key(p),
    ensures
        exists|s: Seq<PairView>| is_arrangement(s, p),
        is_arrangement(sorted_pairs(p), p),
    decreases p.len(),
{
    if p.len() == 0 {
        let s = Seq::<PairView>::empty();
        assert(is_arrangement(s, p));
    } else {
        let q = p.drop_last();
        let x = p.last();
        assert(!has_duplicate_key(q)) by {
            if has_duplicate_key(q) {
                let (i, j) = choose|i: int, j: int| 0 <= i < j < q.len() && #[trigger] q[i].0 == #[trigger] q[j].0;
                assert(p[i].0 == p[j].0);
            }
        }
        lemma_arrangement_exists(q);
        let t = sorted_pairs(q);
        assert forall|i: int| 0 <= i < t.len() implies #[trigger] t[i].0 != x.0 by {
            assert(t.contains(t[i]));
            assert(q.contains(t[i]));
            let j = choose|j: int| 0 <= j < q.len() && q[j] == t[i];
            assert(p[j] == q[j]);
            assert(p[j].0 != p[p.len() - 1].0);
        }
        lemma_insert_pos(t, x.0);
        let pos = insert_pos(t, x.0);
        lemma_insert_sorted(t, pos, x);
        let s = t.insert(pos, x);
        assert(p =~= q.push(x));
        assert forall|e: PairView| #[trigger] s.contains(e) <==> p.contains(e) by {
            vstd::seq_lib::lemma_seq_contains_after_push(q, x, e);
        }
        assert(is_arrangement(s, p));
    }
}

/// Canonicalization does not depend on the order in which the parameters
/// were assembled: any permutation of a parameter list has the same
/// canonical query string.
pub proof fn lemma_canonical_order_independent(first: Seq<PairView>, second: Seq<PairView>, timestamp: u64)
    requires
        first.to_multiset() == second.to_multiset(),
        !has_duplicate_key(first),
    ensures
        canonical_query(first, timestamp) == canonical_query(second, timestamp),
{
    lemma_arrangement_exists(first);
    let s1 = sorted_pairs(first);
    assert(forall|e: PairView| first.contains(e) <==> second.contains(e)) by {
        assert forall|e: PairView| first.contains(e) <==> second.contains(e) by {
            vstd::seq_lib::to_multiset_contains(first, e);
            vstd::seq_lib::to_multiset_contains(second, e);
        }
    }
    assert(is_arrangement(s1, second));
    let s2 = sorted_pairs(second);
    lemma_arrangement_unique(s1, s2);
}


proof fn lemma_insert_sorted(s: Seq<PairView>, pos: int, x: PairView)
    requires
        0 <= pos <= s.len(),
        sorted_by_key(s),
        forall|m: int| 0 <= m < pos ==> key_lt(#[trigger] s[m].0, x.0),
        pos < s.len() ==> key_lt(x.0, s[pos].0),
    ensures
        sorted_by_key(s.insert(pos, x)),
        forall|e: PairView| #[trigger] s.insert(pos, x).contains(e) <==> (s.contains(e) || e == x),
{
    let t = s.insert(pos, x);
    assert forall|i: int, j: int| 0 <= i < j < t.len() implies key_lt(#[trigger] t[i].0, #[trigger] t[j].0) by {
        if j < pos {
        } else if j == pos {
        } else if i < pos {
            assert(t[j] == s[j - 1]);
        } else if i == pos {
            assert(t[j] == s[j - 1]);
            if j - 1 > pos {
                lemma_key_lt_transitive(x.0, s[pos].0, s[j - 1].0);
            }
        } else {
            assert(t[i] == s[i - 1]);
            assert(t[j] == s[j - 1]);
        }
    }
    assert forall|e: PairView| #[trigger] t.contains(e) <==> (s.contains(e) || e == x) by {
        if t.contains(e) {
            let i = choose|i: int| 0 <= i < t.len() && t[i] == e;
            if i < pos {
                assert(s[i] == e);
            } else if i > pos {
                assert(s[i - 1] == e);
            }
        }
        if s.contains(e) {
            let i = choose|i: int| 0 <= i < s.len() && s[i] == e;
            if i < pos {
                assert(t[i] == e);
            } else {
                assert(t[i + 1] == e);
            }
        }
        if e == x {
            assert(t[pos] == e);
        }
    }
}

/// Why a parameter list cannot be canonicalized.
#[derive(Debug, Clone, Copy, PartialEq, Eq, Structural)]
pub enum EncodingError {
    /// An empty key, or a key or value with a character that would need
    /// percent-encoding.
    MalformedParameter,
    /// A key that the request adds itself (`timestamp`, `signature`).
    ReservedKey,
    /// The same key given twice.
    DuplicateKey,
}

/// A signable request: the canonical query string and the timestamp it carries.
pub struct CanonicalRequest {
    pub query_string: String,
    pub timestamp: u64,
}

fn is_safe_char(c: char) -> (r: bool)
    ensures
        r == safe_char(c),
{
    ('a' <= c && c <= 'z') || ('A' <= c && c <= 'Z') || ('0' <= c && c <= '9') || c == '.'
        || c == '-' || c == '_' || c == '~'
}

/// Whether every character of `s` is safe in a query string.
pub fn is_safe_text(s: &str) -> (r: bool)
    ensures
        r == all_safe(s@),
{
    let n = s.unicode_len();
    let mut i: usize = 0;
    while i < n
        invariant
            n == s@.len(),
            i <= n,
            forall|j: int| 0 <= j < i ==> safe_char(#[trigger] s@[j]),
        decreases n - i,
    {
        if !is_safe_char(s.get_char(i)) {
            return false;
        }
        i = i + 1;
    }
    true
}

/// Strict lexicographic comparison of two keys.
pub fn key_less(a: &str, b: &str) -> (r: bool)
    ensures
        r == key_lt(a@, b@),
{
    let na = a.unicode_len();
    let nb = b.unicode_len();
    assert(a@.subrange(0, na as int) =~= a@);
    assert(b@.subrange(0, nb as int) =~= b@);
    let mut i: usize = 0;
    while i < na && i < nb
        invariant
            na == a@.len(),
            nb == b@.len(),
            i <= na,
            i <= nb,
            key_lt(a@, b@) == key_lt(a@.subrange(i as int, na as int), b@.subrange(i as int, nb as int)),
        decreases na - i,
    {
        let x = a.get_char(i);
        let y = b.get_char(i);
        let ghost sa = a@.subrange(i as int, na as int);
        let ghost sb = b@.subrange(i as int, nb as int);
        assert(sa[0] == x && sb[0] == y);
        if x != y {
            return x < y;
        }
        assert(sa.drop_first() =~= a@.subrange(i as int + 1, na as int));
        assert(sb.drop_first() =~= b@.subrange(i as int + 1, nb as int));
        i = i + 1;
    }
    i == na && i < nb
}

fn well_formed_pairs(pairs: &Vec<(String, String)>) -> (r: bool)
    ensures
        r == all_well_formed(pairs_view(pairs@)),
{
    let mut i: usize = 0;
    while i < pairs.len()
        invariant
            i <= pairs@.len(),
            forall|j: int| 0 <= j < i ==> pair_well_formed(#[trigger] pairs_view(pairs@)[j]),
        decreases pairs@.len() - i,
    {
        let ok = pairs[i].0.as_str().unicode_len() > 0 && is_safe_text(pairs[i].0.as_str())
            && is_safe_text(pairs[i].1.as_str());
        if !ok {
            assert(!pair_well_formed(pairs_view(pairs@)[i as int]));
            return false;
        }
        i = i + 1;
    }
    true
}

fn reserved_pairs(pairs: &Vec<(String, String)>) -> (r: bool)
    ensures
        r == has_reserved_key(pairs_view(pairs@)),
{
    let ts = String::from_str("timestamp");
    let sig = String::from_str("signature");
    let mut i: usize = 0;
    while i < pairs.len()
        invariant
            i <= pairs@.len(),
            ts@ == "timestamp"@,
            sig@ == "signature"@,
            forall|j: int| 0 <= j < i ==> !reserved_key(#[trigger] pairs_view(pairs@)[j].0),
        decreases pairs@.len() - i,
    {
        if pairs[i].0 == ts || pairs[i].0 == sig {
            assert(reserved_key(pairs_view(pairs@)[i as int].0));
            return true;
        }
        i = i + 1;
    }
    false
}

fn duplicate_pairs(pairs: &Vec<(String, String)>) -> (r: bool)
    ensures
        r == has_duplicate_key(pairs_view(pairs@)),
{
    let ghost pv = pairs_view(pairs@);
    let mut i: usize = 0;
    while i < pairs.len()
        invariant
            pv == pairs_view(pairs@),
            i <= pairs@.len(),
            forall|a: int, b: int| 0 <= a < b < pv.len() && a < i ==> #[trigger] pv[a].0 != #[trigger] pv[b].0,
        decreases pairs@.len() - i,
    {
        let mut j: usize = i + 1;
        while j < pairs.len()
            invariant
                pv == pairs_view(pairs@),
                i < pairs@.len(),
                i + 1 <= j <= pairs@.len(),
                forall|a: int, b: int| 0 <= a < b < pv.len() && a < i ==> #[trigger] pv[a].0 != #[trigger] pv[b].0,
                forall|b: int| i < b < j ==> pv[i as int].0 != #[trigger] pv[b].0,
            decreases pairs@.len() - j,
        {
            if pairs[i].0 == pairs[j].0 {
                assert(pv[i as int].0 == pv[j as int].0);
                return true;
            }
            j = j + 1;
        }
        i = i + 1;
    }
    false
}

fn sort_by_key(pairs: &Vec<(String, String)>) -> (r: Vec<(String, String)>)
    requires
        !has_duplicate_key(pairs_view(pairs@)),
    ensures
        is_arrangement(pairs_view(r@), pairs_view(pairs@)),
{
    let ghost pv = pairs_view(pairs@);
    let mut res: Vec<(String, String)> = Vec::new();
    let mut i: usize = 0;
    while i < pairs.len()
        invariant
            pv == pairs_view(pairs@),
            !has_duplicate_key(pv),
            i <= pairs@.len(),
            sorted_by_key(pairs_view(res@)),
            forall|e: PairView| #[trigger] pairs_view(res@).contains(e) <==> pv.subrange(0, i as int).contains(e),
        decreases pairs@.len() - i,
    {
        let ghost rv = pairs_view(res@);
        let k = &pairs[i].0;
        let mut pos: usize = 0;
        while pos < res.len() && !key_less(k.as_str(), res[pos].0.as_str())
            invariant
                rv == pairs_view(res@),
                pv == pairs_view(pairs@),
                !has_duplicate_key(pv),
                i < pairs@.len(),
                k@ == pv[i as int].0,
                pos <= res@.len(),
                forall|e: PairView| #[trigger] rv.contains(e) <==> pv.subrange(0, i as int).contains(e),
                forall|m: int| 0 <= m < pos ==> key_lt(#[trigger] rv[m].0, k@),
            decreases res@.len() - pos,
        {
            proof {
                assert(rv.contains(rv[pos as int]));
                let j = choose|j: int| 0 <= j < i && pv.subrange(0, i as int)[j] == rv[pos as int];
                assert(pv[j] == rv[pos as int]);
                lemma_key_lt_total(rv[pos as int].0, k@);
            }
            pos = pos + 1;
        }
        let item = (k.clone(), pairs[i].1.clone());
        assert(pair_view(item) == pv[i as int]);
        res.insert(pos, item);
        proof {
            assert(pairs_view(res@) =~= rv.insert(pos as int, pv[i as int]));
            lemma_insert_sorted(rv, pos as int, pv[i as int]);
            assert(pv.subrange(0, i as int + 1) =~= pv.subrange(0, i as int).push(pv[i as int]));
            assert forall|e: PairView| #[trigger] pv.subrange(0, i as int + 1).contains(e) <==> (
            pv.subrange(0, i as int).contains(e) || e == pv[i as int]) by {
                vstd::seq_lib::lemma_seq_contains_after_push(pv.subrange(0, i as int), pv[i as int], e);
            }
        }
        i = i + 1;
    }
    assert(pv.subrange(0, pv.len() as int) =~= pv);
    res
}

fn decimal_digit(n: u64) -> (r: &'static str)
    requires
        n < 10,
    ensures
        r@ == seq![digit_char(n as nat)],
{
    let digits = "0123456789";
    proof {
        reveal_strlit("0123456789");
    }
    assert(digits.is_ascii());
    let r = digits.substring_ascii(n as usize, n as usize + 1);
    assert(r@ =~= seq![digit_char(n as nat)]);
    r
}

fn append_decimal(out: &mut String, n: u64)
    ensures
        final(out)@ == old(out)@ + decimal_of(n as nat),
    decreases n,
{
    if n >= 10 {
        append_decimal(out, n / 10);
    }
    out.append(decimal_digit(n % 10));
    assert(final(out)@ =~= old(out)@ + decimal_of(n as nat));
}

fn render(sorted: &Vec<(String, String)>, timestamp: u64) -> (r: String)
    ensures
        r@ == render_query(pairs_view(sorted@), timestamp),
{
    let ghost sv = pairs_view(sorted@);
    let mut r = String::new();
    let mut i: usize = 0;
    while i < sorted.len()
        invariant
            sv == pairs_view(sorted@),
            i <= sorted@.len(),
            r@ == render_pairs(sv.subrange(0, i as int)),
        decreases sorted@.len() - i,
    {
        r.append(sorted[i].0.as_str());
        r.append("=");
        r.append(sorted[i].1.as_str());
        r.append("&");
        proof {
            let t = sv.subrange(0, i as int + 1);
            assert(t.drop_last() =~= sv.subrange(0, i as int));
            assert(t.last() == sv[i as int]);
        }
        i = i + 1;
    }
    assert(sv.subrange(0, sv.len() as int) =~= sv);
    r.append("timestamp=");
    append_decimal(&mut r, timestamp);
    r
}

/// Builds the canonical query string of `pairs` at `timestamp`: the pairs as
/// `key=value`, sorted by key and joined by `&`, then `timestamp=<ms>` last.
pub fn canonicalize(pairs: &Vec<(String, String)>, timestamp: u64) -> (r: Result<CanonicalRequest, EncodingError>)
    ensures
        match r {
            Ok(c) => {
                &&& all_well_formed(pairs_view(pairs@))
                &&& !has_reserved_key(pairs_view(pairs@))
                &&& !has_duplicate_key(pairs_view(pairs@))
                &&& c.query_string@ == canonical_query(pairs_view(pairs@), timestamp)
                &&& c.timestamp == timestamp
            },
            Err(EncodingError::MalformedParameter) => !all_well_formed(pairs_view(pairs@)),
            Err(EncodingError::ReservedKey) => all_well_formed(pairs_view(pairs@)) && has_reserved_key(
                pairs_view(pairs@),
            ),
            Err(EncodingError::DuplicateKey) => {
                &&& all_well_formed(pairs_view(pairs@))
                &&& !has_reserved_key(pairs_view(pairs@))
                &&& has_duplicate_key(pairs_view(pairs@))
            },
        },
{
    if !well_formed_pairs(pairs) {
        return Err(EncodingError::MalformedParameter);
    }
    if reserved_pairs(pairs) {
        return Err(EncodingError::ReservedKey);
    }
    if duplicate_pairs(pairs) {
        return Err(EncodingError::DuplicateKey);
    }
    let sorted = sort_by_key(pairs);
    proof {
        let pv = pairs_view(pairs@);
        let sv = pairs_view(sorted@);
        assert(is_arrangement(sv, pv));
        let chosen = sorted_pairs(pv);
        assert(is_arrangement(chosen, pv));
        lemma_arrangement_unique(sv, chosen);
    }
    let query_string = render(&sorted, timestamp);
    Ok(CanonicalRequest { query_string, timestamp })
}

} // verus!
