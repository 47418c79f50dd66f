//! Display text. Strings are kept out of the code: every headline and label
//! is a template looked up by key in a `TextTable`, whose `{name}`
//! placeholders are then replaced by the given values.

use vstd::prelude::*;

verus! {

// ───────────────────────────── character order ─────────────────────────────

/// Lexicographic comparison of two character sequences from position `i` on,
/// by code point (which is also the byte order of their UTF-8 encodings).
pub open spec fn lex_less_from(a: Seq<char>, b: Seq<char>, i: int) -> bool
    decreases a.len() - i,
{
    if i < 0 || i >= a.len() {
        0 <= i < b.len()
    } else if i >= b.len() {
        false
    } else if a[i] != b[i] {
        (a[i] as int) < (b[i] as int)
    } else {
        lex_less_from(a, b, i + 1)
    }
}

/// `a` sorts strictly before `b` as strings.
pub open spec fn lex_less(a: Seq<char>, b: Seq<char>) -> bool {
    lex_less_from(a, b, 0)
}

proof fn lemma_lex_irreflexive_from(a: Seq<char>, i: int)
    requires
        0 <= i,
    ensures
        !lex_less_from(a, a, i),
    decreases a.len() - i,
{
    if i < a.len() {
        lemma_lex_irreflexive_from(a, i + 1);
    }
}

pub proof fn lemma_lex_irreflexive(a: Seq<char>)
    ensures
        !lex_less(a, a),
{
    lemma_lex_irreflexive_from(a, 0);
}

proof fn lemma_lex_transitive_from(a: Seq<char>, b: Seq<char>, c: Seq<char>, i: int)
    requires
        0 <= i,
        lex_less_from(a, b, i),
        lex_less_from(b, c, i),
    ensures
        lex_less_from(a, c, i),
    decreases a.len() - i,
{
    if i < a.len() && i < b.len() && i < c.len() && a[i] == b[i] && b[i] == c[i] {
        lemma_lex_transitive_from(a, b, c, i + 1);
    }
}

pub proof fn lemma_lex_transitive(a: Seq<char>, b: Seq<char>, c: Seq<char>)
    requires
        lex_less(a, b),
        lex_less(b, c),
    ensures
        lex_less(a, c),
{
    lemma_lex_transitive_from(a, b, c, 0);
}

proof fn lemma_lex_asymmetric_from(a: Seq<char>, b: Seq<char>, i: int)
    requires
        0 <= i,
        lex_less_from(a, b, i),
    ensures
        !lex_less_from(b, a, i),
    decreases a.len() - i,
{
    if i < a.len() && i < b.len() && a[i] == b[i] {
        lemma_lex_asymmetric_from(a, b, i + 1);
    }
}

pub proof fn lemma_lex_asymmetric(a: Seq<char>, b: Seq<char>)
    ensures
        lex_less(a, b) ==> !lex_less(b, a),
{
    if lex_less(a, b) {
        lemma_lex_asymmetric_from(a, b, 0);
    }
}

proof fn lemma_lex_total_from(a: Seq<char>, b: Seq<char>, i: int)
    requires
        0 <= i <= a.len(),
        i <= b.len(),
        a.take(i) == b.take(i),
        !lex_less_from(a, b, i),
        !lex_less_from(b, a, i),
    ensures
        a == b,
    decreases a.len() - i,
{
    if i < a.len() && i < b.len() {
        assert(a[i] == b[i]) by {
            if a[i] != b[i] {
                assert((a[i] as int) != (b[i] as int));
            }
        }
        assert(a.take(i + 1) == a.take(i).push(a[i]));
        assert(b.take(i + 1) == b.take(i).push(b[i]));
        lemma_lex_total_from(a, b, i + 1);
    } else {
        assert(a == a.take(i));
        assert(b == b.take(i));
    }
}

pub proof fn lemma_lex_total(a: Seq<char>, b: Seq<char>)
    requires
        a != b,
    ensures
        lex_less(a, b) || lex_less(b, a),
{
    if !lex_less(a, b) && !lex_less(b, a) {
        assert(a.take(0) == b.take(0));
        lemma_lex_total_from(a, b, 0);
    }
}

/// Three-way comparison of two strings by code point: -1, 0 or 1 as `a`
/// sorts before, equal to or after `b`.
pub fn compare_str(a: &str, b: &str) -> (r: i8)
    ensures
        r == -1 <==> lex_less(a@, b@),
        r == 0 <==> a@ == b@,
        r == 1 <==> lex_less(b@, a@),
        -1 <= r <= 1,
{
    let la = a.unicode_len();
    let lb = b.unicode_len();
    let mut i: usize = 0;
    while i < la && i < lb
        invariant
            la == a@.len(),
            lb == b@.len(),
            i <= la,
            i <= lb,
            a@.take(i as int) == b@.take(i as int),
            lex_less(a@, b@) == lex_less_from(a@, b@, i as int),
            lex_less(b@, a@) == lex_less_from(b@, a@, i as int),
        decreases la - i,
    {
        let ca = a.get_char(i);
        let cb = b.get_char(i);
        if ca != cb {
            proof {
                lemma_lex_asymmetric(a@, b@);
                lemma_lex_asymmetric(b@, a@);
            }
            if (ca as u32) < (cb as u32) {
                return -1;
            } else {
                return 1;
            }
        }
        proof {
            assert(a@.take(i + 1) == a@.take(i as int).push(ca));
            assert(b@.take(i + 1) == b@.take(i as int).push(cb));
        }
        i = i + 1;
    }
    proof {
        lemma_lex_irreflexive(a@);
        if a@ != b@ {
            lemma_lex_total(a@, b@);
            lemma_lex_asymmetric(a@, b@);
            lemma_lex_asymmetric(b@, a@);
        }
    }
    if la < lb {
        proof {
            assert(a@ == a@.take(i as int));
        }
        -1
    } else if lb < la {
        proof {
            assert(b@ == b@.take(i as int));
        }
        1
    } else {
        proof {
            assert(a@ == a@.take(i as int));
            assert(b@ == b@.take(i as int));
        }
        0
    }
}


// ───────────────────────────── replacement ─────────────────────────────

/// `s` with every occurrence of `p` replaced by `r`, scanning left to right
/// and never overlapping (what `str::replace` does for a non-empty pattern).
pub open spec fn replace_all(s: Seq<char>, p: Seq<char>, r: Seq<char>) -> Seq<char>
    decreases s.len(),
{
    if p.len() == 0 || s.len() < p.len() {
        s
    } else if s.take(p.len() as int) == p {
        r + replace_all(s.skip(p.len() as int), p, r)
    } else {
        seq![s[0]] + replace_all(s.skip(1), p, r)
    }
}

/// Whether `p` occurs in `s` at position `i`.
fn occurs_at(s: &str, n: usize, p: &str, m: usize, i: usize) -> (b: bool)
    requires
        n == s@.len(),
        m == p@.len(),
        i + m <= n,
    ensures
        b == (s@.subrange(i as int, i + m) == p@),
{
    let mut k: usize = 0;
    while k < m
        invariant
            n == s@.len(),
            m == p@.len(),
            i + m <= n,
            k <= m,
            forall|j: int| 0 <= j < k ==> s@[i + j] == p@[j],
        decreases m - k,
    {
        if s.get_char(i + k) != p.get_char(k) {
            proof {
                assert(s@.subrange(i as int, i + m)[k as int] != p@[k as int]);
            }
            return false;
        }
        k = k + 1;
    }
    proof {
        assert(s@.subrange(i as int, i + m) =~= p@);
    }
    true
}

/// Replaces every occurrence of the non-empty pattern `p` in `s` by `r`.
pub fn replace(s: &str, p: &str, r: &str) -> (out: String)
    requires
        p@.len() > 0,
    ensures
        out@ == replace_all(s@, p@, r@),
{
    let n = s.unicode_len();
    let m = p.unicode_len();
    let mut out = String::new();
    let mut i: usize = 0;
    proof {
        assert(s@.skip(0) == s@);
    }
    while i < n
        invariant
            n == s@.len(),
            m == p@.len(),
            m > 0,
            i <= n,
            out@ + replace_all(s@.skip(i as int), p@, r@) == replace_all(s@, p@, r@),
        decreases n - i,
    {
        let rest = Ghost(s@.skip(i as int));
        if m <= n - i && occurs_at(s, n, p, m, i) {
            proof {
                assert(rest@.take(m as int) == s@.subrange(i as int, i + m));
                assert(rest@.skip(m as int) == s@.skip(i + m));
                assert(out@ + r@ + replace_all(s@.skip(i + m), p@, r@) == out@ + (r@
                    + replace_all(s@.skip(i + m), p@, r@)));
            }
            out.append(r);
            i = i + m;
        } else {
            let one = s.substring_char(i, i + 1);
            proof {
                assert(one@ == seq![s@[i as int]]);
                assert(rest@.skip(1) == s@.skip(i + 1));
                if i + m <= n {
                    assert(rest@.take(m as int) == s@.subrange(i as int, i + m));
                }
                if rest@.len() < m {
                    assert(rest@ =~= seq![rest@[0]] + rest@.skip(1));
                    assert(replace_all(rest@.skip(1), p@, r@) == rest@.skip(1));
                }
                assert(out@ + one@ + replace_all(s@.skip(i + 1), p@, r@) == out@ + (one@
                    + replace_all(s@.skip(i + 1), p@, r@)));
            }
            out.append(one);
            i = i + 1;
        }
    }
    proof {
        assert(s@.skip(n as int).len() == 0);
        assert(out@ + Seq::<char>::empty() == out@);
    }
    out
}

// ───────────────────────────── numbers ─────────────────────────────

pub open spec fn digit_char(d: int) -> char {
    if d == 0 {
        '0'
    } else if d == 1 {
        '1'
    } else if d == 2 {
        '2'
    } else if d == 3 {
        '3'
    } else if d == 4 {
        '4'
    } else if d == 5 {
        '5'
    } else if d == 6 {
        '6'
    } else if d == 7 {
        '7'
    } else if d == 8 {
        '8'
    } else {
        '9'
    }
}

/// The decimal representation of `n`, most significant digit first.
pub open spec fn decimal_chars(n: nat) -> Seq<char>
    decreases n,
{
    if n < 10 {
        seq![digit_char(n as int)]
    } else {
        decimal_chars(n / 10).push(digit_char((n % 10) as int))
    }
}

fn digit_str(d: u64) -> (s: &'static str)
    requires
        d < 10,
    ensures
        s@ == seq![digit_char(d as int)],
{
    let s = if d == 0 {
        proof { reveal_strlit("0"); }
        "0"
    } else if d == 1 {
        proof { reveal_strlit("1"); }
        "1"
    } else if d == 2 {
        proof { reveal_strlit("2"); }
        "2"
    } else if d == 3 {
        proof { reveal_strlit("3"); }
        "3"
    } else if d == 4 {
        proof { reveal_strlit("4"); }
        "4"
    } else if d == 5 {
        proof { reveal_strlit("5"); }
        "5"
    } else if d == 6 {
        proof { reveal_strlit("6"); }
        "6"
    } else if d == 7 {
        proof { reveal_strlit("7"); }
        "7"
    } else if d == 8 {
        proof { reveal_strlit("8"); }
        "8"
    } else {
        proof { reveal_strlit("9"); }
        "9"
    };
    proof {
        assert(s@ =~= seq![digit_char(d as int)]);
    }
    s
}

/// `n` written in decimal.
pub fn decimal(n: u64) -> (s: String)
    ensures
        s@ == decimal_chars(n as nat),
    decreases n,
{
    if n < 10 {
        String::from_str(digit_str(n))
    } else {
        let mut s = decimal(n / 10);
        s.append(digit_str(n % 10));
        proof {
            assert(seq![digit_char((n % 10) as int)] =~= Seq::<char>::empty().push(
                digit_char((n % 10) as int),
            ));
        }
        s
    }
}


// ───────────────────────────── templates ─────────────────────────────

/// The placeholder for the argument named `k`: `{k}`.
pub open spec fn placeholder(k: Seq<char>) -> Seq<char> {
    seq!['{'] + k + seq!['}']
}

/// `base` with each argument's placeholder replaced by its value, the
/// arguments taken in order.
pub open spec fn fill(base: Seq<char>, args: Seq<(&str, &str)>) -> Seq<char>
    decreases args.len(),
{
    if args.len() == 0 {
        base
    } else {
        replace_all(fill(base, args.drop_last()), placeholder(args.last().0@), args.last().1@)
    }
}

/// Display strings by key. The entries are kept sorted by key so that a
/// lookup is a binary search and iteration order is deterministic.
#[derive(Clone, Debug)]
pub struct TextTable {
    pub entries: Vec<(String, String)>,
}

impl TextTable {
    /// The keys never decrease along the entries.
    pub open spec fn sorted(&self) -> bool {
        keys_sorted(self.entries@)
    }

    /// Whether some entry has the key `key`.
    pub open spec fn has_key(&self, key: Seq<char>) -> bool {
        exists|i: int| 0 <= i < self.entries@.len() && #[trigger] self.entries@[i].0@ == key
    }

    /// What `format` promises of its result `s` for `key` and `args`.
    pub open spec fn formats_to(&self, key: Seq<char>, args: Seq<(&str, &str)>, s: Seq<char>) -> bool {
        &&& !self.has_key(key) ==> s == fill(key, args)
        &&& s == fill(key, args) || exists|t: Seq<char>| self.is_value_of(key, t) && s == fill(t, args)
        &&& self.sorted() && self.has_key(key) ==> exists|t: Seq<char>|
            self.is_value_of(key, t) && s == fill(t, args)
    }

    /// `text` is the value of some entry whose key is `key`.
    pub open spec fn is_value_of(&self, key: Seq<char>, text: Seq<char>) -> bool {
        exists|i: int|
            0 <= i < self.entries@.len() && #[trigger] self.entries@[i].0@ == key
                && self.entries@[i].1@ == text
    }

    pub fn new() -> (t: TextTable)
        ensures
            t.entries@.len() == 0,
    {
        TextTable { entries: Vec::new() }
    }

    /// The text for `key`; a missing key stands for itself, so that an
    /// untranslated key shows up on screen instead of failing.
    pub fn get<'a>(&'a self, key: &'a str) -> (r: &'a str)
        ensures
            !self.has_key(key@) ==> r@ == key@,
            r@ == key@ || self.is_value_of(key@, r@),
            self.sorted() && self.has_key(key@) ==> self.is_value_of(key@, r@),
    {
        let n = self.entries.len();
        let mut lo: usize = 0;
        let mut hi: usize = n;
        while lo < hi
            invariant
                n == self.entries@.len(),
                lo <= hi <= n,
                self.sorted() ==> forall|j: int|
                    0 <= j < lo ==> lex_less(#[trigger] self.entries@[j].0@, key@),
                self.sorted() ==> forall|j: int|
                    hi <= j < n ==> lex_less(key@, #[trigger] self.entries@[j].0@),
            decreases hi - lo,
        {
            let mid = lo + (hi - lo) / 2;
            let c = compare_str(self.entries[mid].0.as_str(), key);
            if c == 0 {
                proof {
                    assert(self.entries@[mid as int].0@ == key@);
                }
                return self.entries[mid].1.as_str();
            } else if c < 0 {
                proof {
                    if self.sorted() {
                        assert forall|j: int| 0 <= j <= mid implies lex_less(
                            #[trigger] self.entries@[j].0@,
                            key@,
                        ) by {
                            let kj = self.entries@[j].0@;
                            let km = self.entries@[mid as int].0@;
                            if j < mid && kj != km {
                                assert(!lex_less(km, kj));
                                lemma_lex_total(kj, km);
                                lemma_lex_transitive(kj, km, key@);
                            }
                        }
                    }
                }
                lo = mid + 1;
            } else {
                proof {
                    if self.sorted() {
                        assert forall|j: int| mid <= j < n implies lex_less(
                            key@,
                            #[trigger] self.entries@[j].0@,
                        ) by {
                            let kj = self.entries@[j].0@;
                            let km = self.entries@[mid as int].0@;
                            if j > mid && kj != km {
                                assert(!lex_less(kj, km));
                                lemma_lex_total(kj, km);
                                lemma_lex_transitive(key@, km, kj);
                            }
                        }
                    }
                }
                hi = mid;
            }
        }
        proof {
            if self.sorted() && self.has_key(key@) {
                let i = choose|i: int|
                    0 <= i < self.entries@.len() && #[trigger] self.entries@[i].0@ == key@;
                lemma_lex_irreflexive(key@);
                if i < lo {
                    assert(lex_less(self.entries@[i].0@, key@));
                } else {
                    assert(lex_less(key@, self.entries@[i].0@));
                }
            }
        }
        key
    }

    /// Orders the entries by key (a stable insertion sort).
    pub fn sort(&mut self)
        ensures
            final(self).sorted(),
            final(self).entries@.to_multiset() == old(self).entries@.to_multiset(),
            forall|k: Seq<char>| #[trigger]
                with_key(final(self).entries@, k) == with_key(old(self).entries@, k),
    {
        broadcast use vstd::seq_lib::group_to_multiset_ensures;

        let ghost orig = self.entries@;
        let mut rest: Vec<(String, String)> = Vec::new();
        std::mem::swap(&mut rest, &mut self.entries);
        let mut sorted: Vec<(String, String)> = Vec::new();
        let ghost mut done: int = 0;
        proof {
            assert(orig.skip(0) == orig);
            assert(orig.take(0) =~= Seq::<(String, String)>::empty());
        }
        while rest.len() > 0
            invariant
                0 <= done <= orig.len(),
                rest@ == orig.skip(done),
                keys_sorted(sorted@),
                sorted@.to_multiset() == orig.take(done).to_multiset(),
                forall|k: Seq<char>| #[trigger]
                    with_key(sorted@, k) == with_key(orig.take(done), k),
            decreases rest@.len(),
        {
            let e = rest.remove(0);
            let m = sorted.len();
            let mut p: usize = 0;
            while p < m && compare_str(e.0.as_str(), sorted[p].0.as_str()) >= 0
                invariant
                    m == sorted@.len(),
                    p <= m,
                    forall|k: int| 0 <= k < p ==> !lex_less(e.0@, #[trigger] sorted@[k].0@),
                decreases m - p,
            {
                p = p + 1;
            }
            proof {
                let old_s = sorted@;
                let ns = old_s.insert(p as int, e);
                assert forall|a: int, b: int| 0 <= a < b < ns.len() implies !lex_less(
                    #[trigger] ns[b].0@,
                    #[trigger] ns[a].0@,
                ) by {
                    if b < p {
                        assert(ns[a] == old_s[a] && ns[b] == old_s[b]);
                    } else if b == p {
                        assert(ns[a] == old_s[a]);
                    } else if a < p {
                        assert(ns[a] == old_s[a] && ns[b] == old_s[b - 1]);
                    } else if a == p {
                        assert(ns[b] == old_s[b - 1]);
                        assert(lex_less(e.0@, old_s[p as int].0@));
                        lemma_lex_irreflexive(e.0@);
                        if lex_less(old_s[b - 1].0@, e.0@) {
                            lemma_lex_transitive(old_s[b - 1].0@, e.0@, old_s[p as int].0@);
                            lemma_lex_irreflexive(old_s[p as int].0@);
                            if b - 1 > p {
                                assert(!lex_less(old_s[b - 1].0@, old_s[p as int].0@));
                            }
                        }
                    } else {
                        assert(ns[a] == old_s[a - 1] && ns[b] == old_s[b - 1]);
                    }
                }
                // every entry from `p` on has a larger key than `e`
                assert forall|q: int| p <= q < old_s.len() implies lex_less(
                    e.0@,
                    #[trigger] old_s[q].0@,
                ) by {
                    assert(lex_less(e.0@, old_s[p as int].0@));
                    if q > p {
                        assert(!lex_less(old_s[q].0@, old_s[p as int].0@));
                        if old_s[p as int].0@ != old_s[q].0@ {
                            lemma_lex_total(old_s[p as int].0@, old_s[q].0@);
                            lemma_lex_transitive(e.0@, old_s[p as int].0@, old_s[q].0@);
                        }
                    }
                }
                assert forall|k: Seq<char>| #[trigger] with_key(ns, k) == with_key(
                    orig.take(done + 1),
                    k,
                ) by {
                    lemma_insert_keeps_key_runs(old_s, p as int, e, k);
                    assert(orig.take(done + 1) == orig.take(done).push(e));
                    lemma_with_key_push(orig.take(done), e, k);
                }
                assert(orig.skip(done).drop_first() == orig.skip(done + 1));
                assert(orig.take(done + 1) == orig.take(done).push(e));
                vstd::seq_lib::to_multiset_build(orig.take(done), e);
                vstd::seq_lib::to_multiset_insert(old_s, p as int, e);
                done = done + 1;
            }
            sorted.insert(p, e);
        }
        proof {
            assert(orig.take(done) == orig);
        }
        self.entries = sorted;
    }

    /// The text for `key` with each `{name}` placeholder replaced by its value.
    pub fn format(&self, key: &str, args: &[(&str, &str)]) -> (s: String)
        ensures
            self.formats_to(key@, args@, s@),
    {
        let base = self.get(key);
        let mut s = String::from_str(base);
        let n = args.len();
        let mut i: usize = 0;
        proof {
            assert(args@.take(0) =~= Seq::<(&str, &str)>::empty());
            reveal_strlit("{");
            reveal_strlit("}");
        }
        while i < n
            invariant
                n == args@.len(),
                i <= n,
                s@ == fill(base@, args@.take(i as int)),
            decreases n - i,
        {
            let (k, v) = args[i];
            let mut pat = String::from_str("{");
            pat.append(k);
            pat.append("}");
            proof {
                reveal_strlit("{");
                reveal_strlit("}");
                assert(pat@ =~= placeholder(k@));
                assert(args@.take(i + 1).drop_last() == args@.take(i as int));
                assert(args@.take(i + 1).last() == args@[i as int]);
            }
            s = replace(s.as_str(), pat.as_str(), v);
            i = i + 1;
        }
        proof {
            assert(args@.take(n as int) == args@);
        }
        s
    }
}

impl Default for TextTable {
    fn default() -> (t: TextTable)
        ensures
            t.entries@.len() == 0,
    {
        TextTable::new()
    }
}

/// Whether an entry has the key `k`.
pub open spec fn key_is(k: Seq<char>) -> spec_fn((String, String)) -> bool {
    |x: (String, String)| x.0@ == k
}

/// The entries of `e` whose key is `k`, in their order.
pub open spec fn with_key(e: Seq<(String, String)>, k: Seq<char>) -> Seq<(String, String)> {
    e.filter(key_is(k))
}

proof fn lemma_with_key_push(e: Seq<(String, String)>, x: (String, String), k: Seq<char>)
    ensures
        with_key(e.push(x), k) == with_key(e, k) + if x.0@ == k {
            seq![x]
        } else {
            Seq::<(String, String)>::empty()
        },
{
    reveal(Seq::filter);
    assert(e.push(x).drop_last() == e);
}

/// Inserting `x` before entries whose keys are all larger than its own
/// adds it at the end of the entries with its key and leaves the others.
proof fn lemma_insert_keeps_key_runs(
    s: Seq<(String, String)>,
    p: int,
    x: (String, String),
    k: Seq<char>,
)
    requires
        0 <= p <= s.len(),
        forall|q: int| p <= q < s.len() ==> lex_less(x.0@, #[trigger] s[q].0@),
    ensures
        with_key(s.insert(p, x), k) == with_key(s, k) + if x.0@ == k {
            seq![x]
        } else {
            Seq::<(String, String)>::empty()
        },
{
    let pred = key_is(k);
    let front = s.take(p);
    let back = s.skip(p);
    assert(s == front + back);
    assert(s.insert(p, x) == front + seq![x] + back);
    Seq::filter_distributes_over_add(front, back, pred);
    Seq::filter_distributes_over_add(front + seq![x], back, pred);
    Seq::filter_distributes_over_add(front, seq![x], pred);
    assert(seq![x] == Seq::<(String, String)>::empty().push(x));
    assert(seq![x].filter(pred) == if x.0@ == k {
        seq![x]
    } else {
        Seq::<(String, String)>::empty()
    }) by {
        reveal_with_fuel(Seq::filter, 2);
        assert(seq![x].drop_last() =~= Seq::<(String, String)>::empty());
        assert(seq![x].last() == x);
        assert(Seq::<(String, String)>::empty().filter(pred) =~= Seq::<(String, String)>::empty());
        if pred(x) {
            assert(Seq::<(String, String)>::empty().push(x) =~= seq![x]);
        }
    }
    if x.0@ == k {
        // no entry of `back` has the key `k`
        broadcast use vstd::seq_lib::group_filter_ensures;
        if back.filter(pred).len() > 0 {
            let y = back.filter(pred)[0];
            assert(pred(y));
            back.lemma_filter_contains_rev(pred, y);
            let q = choose|q: int| 0 <= q < back.len() && back[q] == y;
            assert(s[p + q] == y);
            assert(lex_less(x.0@, y.0@));
            lemma_lex_irreflexive(k);
        }
        assert(back.filter(pred) =~= Seq::<(String, String)>::empty());
    }
}

/// The keys never decrease along `e`.
pub open spec fn keys_sorted(e: Seq<(String, String)>) -> bool {
    forall|i: int, j: int| 0 <= i < j < e.len() ==> !lex_less(#[trigger] e[j].0@, #[trigger] e[i].0@)
}

} // verus!
