//! The key sequence matcher: accumulates canonical tokens into a pending
//! sequence and resolves it against an immutable table of bound command
//! sequences.
//!
//! On each new key the candidate sequence (pending keys plus the new one)
//! is first looked up exactly: a hit emits the bound order and clears the
//! pending sequence. Otherwise, if some strictly longer bound sequence
//! starts with the candidate, the candidate is retained and the matcher
//! waits for the next key. Otherwise the candidate cannot lead to any
//! bound command and the pending sequence is cleared without emitting;
//! the key that broke the chain is discarded. Because the exact lookup
//! runs first, the shortest bound sequence matching what was typed fires
//! immediately: a bound sequence that is a strict prefix of another
//! shadows the longer one by design.

use vstd::prelude::*;

use crate::error::Error;
use crate::key::Key;

verus! {

/// A resolved application command.
#[derive(Clone, Copy, PartialEq, Eq, Structural, Debug)]
pub enum Order {
    Exit,
}

/// The token sequence of a keymap, in order.
pub open spec fn tokens_of(keys: Seq<Key>) -> Seq<Seq<char>> {
    keys.map_values(|k: Key| k@)
}

/// One bound command: a non-empty key sequence and the order it resolves
/// to.
pub struct Binding {
    keys: Vec<Key>,
    order: Order,
}

impl View for Binding {
    type V = (Seq<Seq<char>>, Order);

    closed spec fn view(&self) -> (Seq<Seq<char>>, Order) {
        (tokens_of(self.keys@), self.order)
    }
}

impl Binding {
    /// Binds a key sequence to an order. A keymap is non-empty by
    /// definition.
    pub fn new(keys: Vec<Key>, order: Order) -> (b: Binding)
        requires
            keys@.len() > 0,
        ensures
            b@ == (tokens_of(keys@), order),
    {
        Binding { keys, order }
    }
}

/// The model of a binding table: each entry's token sequences and order,
/// in table order.
pub open spec fn table_of(bs: Seq<Binding>) -> Seq<(Seq<Seq<char>>, Order)> {
    bs.map_values(|b: Binding| b@)
}

/// The order bound to exactly the sequence `p`: the first table entry
/// whose keymap equals `p`, if any.
pub open spec fn lookup(bs: Seq<(Seq<Seq<char>>, Order)>, p: Seq<Seq<char>>) -> Option<Order>
    decreases bs.len(),
{
    if bs.len() == 0 {
        None
    } else if bs[0].0 == p {
        Some(bs[0].1)
    } else {
        lookup(bs.drop_first(), p)
    }
}

/// Whether the sequence `p` is still viable: some strictly longer bound
/// keymap starts with exactly `p`.
pub open spec fn viable(bs: Seq<(Seq<Seq<char>>, Order)>, p: Seq<Seq<char>>) -> bool {
    exists|i: int|
        0 <= i < bs.len() && bs[i].0.len() > p.len() && bs[i].0.take(p.len() as int) == p
}

/// The pending sequence after one key: empty on resolution or
/// abandonment, the extended candidate while it stays viable.
pub open spec fn step_pool(
    bs: Seq<(Seq<Seq<char>>, Order)>,
    pool: Seq<Seq<char>>,
    k: Seq<char>,
) -> Seq<Seq<char>> {
    let p = pool.push(k);
    if lookup(bs, p) is Some {
        Seq::empty()
    } else if viable(bs, p) {
        p
    } else {
        Seq::empty()
    }
}

/// The order emitted on one key: the exact match of the extended
/// candidate, if any.
pub open spec fn step_emit(
    bs: Seq<(Seq<Seq<char>>, Order)>,
    pool: Seq<Seq<char>>,
    k: Seq<char>,
) -> Option<Order> {
    lookup(bs, pool.push(k))
}

/// The pending sequence left after feeding a whole key sequence.
pub open spec fn run_pool(
    bs: Seq<(Seq<Seq<char>>, Order)>,
    pool: Seq<Seq<char>>,
    keys: Seq<Seq<char>>,
) -> Seq<Seq<char>>
    decreases keys.len(),
{
    if keys.len() == 0 {
        pool
    } else {
        run_pool(bs, step_pool(bs, pool, keys[0]), keys.drop_first())
    }
}

/// Every order emitted while feeding a whole key sequence, in order.
pub open spec fn run_emits(
    bs: Seq<(Seq<Seq<char>>, Order)>,
    pool: Seq<Seq<char>>,
    keys: Seq<Seq<char>>,
) -> Seq<Order>
    decreases keys.len(),
{
    if keys.len() == 0 {
        Seq::empty()
    } else {
        let head = match step_emit(bs, pool, keys[0]) {
            Some(o) => seq![o],
            None => Seq::<Order>::empty(),
        };
        head + run_emits(bs, step_pool(bs, pool, keys[0]), keys.drop_first())
    }
}

/// The stateful matcher: an immutable binding table and the pending
/// sequence of keys typed so far toward a not-yet-resolved command.
pub struct Matcher {
    bindings: Vec<Binding>,
    pool: Vec<Key>,
}

impl Matcher {
    /// The model of this matcher's binding table.
    pub closed spec fn table(&self) -> Seq<(Seq<Seq<char>>, Order)> {
        table_of(self.bindings@)
    }

    /// The model of this matcher's pending sequence.
    pub closed spec fn pending(&self) -> Seq<Seq<char>> {
        tokens_of(self.pool@)
    }

    /// A matcher over the given binding table, with an empty pending
    /// sequence.
    pub fn new(bindings: Vec<Binding>) -> (m: Matcher)
        ensures
            m.table() == table_of(bindings@),
            m.pending() == Seq::<Seq<char>>::empty(),
    {
        let m = Matcher { bindings, pool: Vec::new() };
        proof {
            assert(m.pending() =~= Seq::<Seq<char>>::empty());
        }
        m
    }

    /// How many keys are pending.
    pub fn pending_len(&self) -> (n: usize)
        ensures
            n == self.pending().len(),
    {
        self.pool.len()
    }

    /// Feeds one key: emits the order bound to exactly the extended
    /// pending sequence if there is one, else keeps the sequence while it
    /// can still lead to a bound command, else clears it.
    #[verifier::loop_isolation(false)]
    pub fn on_key(&mut self, key: Key) -> (r: Option<Order>)
        ensures
            final(self).table() == old(self).table(),
            final(self).pending() == step_pool(old(self).table(), old(self).pending(), key@),
            r == step_emit(old(self).table(), old(self).pending(), key@),
    {
        let ghost bs = self.table();
        let ghost p = self.pending().push(key@);

        self.pool.push(key);
        proof {
            assert(self.pending() =~= p);
        }

        let n = self.bindings.len();
        let mut i: usize = 0;
        while i < n
            invariant
                0 <= i <= n,
                n == self.bindings.len(),
                self.table() == bs,
                self.pending() == p,
                forall|j: int| 0 <= j < i ==> bs[j].0 != p,
            decreases n - i,
        {
            if keys_equal(&self.bindings[i].keys, &self.pool) {
                proof {
                    assert(bs[i as int].0 == p);
                    lemma_lookup_first(bs, p, i as int);
                }
                let emitted = self.bindings[i].order;
                self.pool.clear();
                proof {
                    assert(self.pending() =~= Seq::<Seq<char>>::empty());
                }
                return Some(emitted);
            }
            i += 1;
        }
        proof {
            lemma_lookup_absent(bs, p);
        }

        let mut i: usize = 0;
        while i < n
            invariant
                0 <= i <= n,
                n == self.bindings.len(),
                self.table() == bs,
                self.pending() == p,
                lookup(bs, p) is None,
                forall|j: int|
                    0 <= j < i ==> !(bs[j].0.len() > p.len() && bs[j].0.take(p.len() as int) == p),
            decreases n - i,
        {
            if self.bindings[i].keys.len() > self.pool.len() && keys_prefix(
                &self.bindings[i].keys,
                &self.pool,
            ) {
                proof {
                    assert(bs[i as int].0.len() > p.len() && bs[i as int].0.take(p.len() as int)
                        == p);
                    assert(viable(bs, p));
                }
                return None;
            }
            i += 1;
        }
        proof {
            assert(!viable(bs, p));
        }
        self.pool.clear();
        proof {
            assert(self.pending() =~= Seq::<Seq<char>>::empty());
        }
        None
    }
}

/// Whether two key sequences carry the same tokens in the same order.
fn keys_equal(a: &Vec<Key>, b: &Vec<Key>) -> (r: bool)
    ensures
        r == (tokens_of(a@) == tokens_of(b@)),
{
    if a.len() != b.len() {
        assert(tokens_of(a@).len() != tokens_of(b@).len());
        return false;
    }
    let mut i: usize = 0;
    while i < a.len()
        invariant
            i <= a.len(),
            a.len() == b.len(),
            forall|j: int| 0 <= j < i ==> a@[j]@ == b@[j]@,
        decreases a.len() - i,
    {
        if !a[i].same(&b[i]) {
            assert(tokens_of(a@)[i as int] != tokens_of(b@)[i as int]);
            return false;
        }
        i += 1;
    }
    proof {
        assert(tokens_of(a@) =~= tokens_of(b@));
    }
    true
}

/// Whether the tokens of `a`, truncated to `b`'s length, equal the tokens
/// of `b`.
fn keys_prefix(a: &Vec<Key>, b: &Vec<Key>) -> (r: bool)
    requires
        b@.len() <= a@.len(),
    ensures
        r == (tokens_of(a@).take(b@.len() as int) == tokens_of(b@)),
{
    let mut i: usize = 0;
    while i < b.len()
        invariant
            i <= b.len(),
            b@.len() <= a@.len(),
            forall|j: int| 0 <= j < i ==> a@[j]@ == b@[j]@,
        decreases b.len() - i,
    {
        if !a[i].same(&b[i]) {
            assert(tokens_of(a@).take(b@.len() as int)[i as int] != tokens_of(b@)[i as int]);
            return false;
        }
        i += 1;
    }
    proof {
        assert(tokens_of(a@).take(b@.len() as int) =~= tokens_of(b@));
    }
    true
}

/// If no table entry before `i` matches `p` exactly and entry `i` does,
/// the lookup of `p` resolves to entry `i`'s order.
proof fn lemma_lookup_first(bs: Seq<(Seq<Seq<char>>, Order)>, p: Seq<Seq<char>>, i: int)
    requires
        0 <= i < bs.len(),
        bs[i].0 == p,
        forall|j: int| 0 <= j < i ==> bs[j].0 != p,
    ensures
        lookup(bs, p) == Some(bs[i].1),
    decreases i,
{
    if i > 0 {
        lemma_lookup_first(bs.drop_first(), p, i - 1);
    }
}

/// If no table entry matches `p` exactly, the lookup of `p` is empty.
proof fn lemma_lookup_absent(bs: Seq<(Seq<Seq<char>>, Order)>, p: Seq<Seq<char>>)
    requires
        forall|j: int| 0 <= j < bs.len() ==> bs[j].0 != p,
    ensures
        lookup(bs, p) is None,
    decreases bs.len(),
{
    if bs.len() > 0 {
        lemma_lookup_absent(bs.drop_first(), p);
    }
}

/// A lookup that resolves names a table entry that matches exactly.
proof fn lemma_lookup_exists(bs: Seq<(Seq<Seq<char>>, Order)>, p: Seq<Seq<char>>, o: Order)
    requires
        lookup(bs, p) == Some(o),
    ensures
        exists|i: int| 0 <= i < bs.len() && bs[i].0 == p && bs[i].1 == o,
    decreases bs.len(),
{
    if bs.len() > 0 && bs[0].0 != p {
        lemma_lookup_exists(bs.drop_first(), p, o);
        let i = choose|i: int|
            0 <= i < bs.drop_first().len() && bs.drop_first()[i].0 == p && bs.drop_first()[i].1
                == o;
        assert(bs[i + 1].0 == p && bs[i + 1].1 == o);
    }
}

/// Feeding one more key is one more step: running a sequence extended by
/// one key runs the sequence, then steps on that key.
proof fn lemma_run_snoc(
    bs: Seq<(Seq<Seq<char>>, Order)>,
    pool: Seq<Seq<char>>,
    s: Seq<Seq<char>>,
    x: Seq<char>,
)
    ensures
        run_pool(bs, pool, s.push(x)) == step_pool(bs, run_pool(bs, pool, s), x),
        run_emits(bs, pool, s.push(x)) == run_emits(bs, pool, s) + (match step_emit(
            bs,
            run_pool(bs, pool, s),
            x,
        ) {
            Some(o) => seq![o],
            None => Seq::<Order>::empty(),
        }),
    decreases s.len(),
{
    let tail = (match step_emit(bs, run_pool(bs, pool, s), x) {
        Some(o) => seq![o],
        None => Seq::<Order>::empty(),
    });
    if s.len() == 0 {
        assert(s.push(x)[0] == x);
        assert(s.push(x).drop_first() =~= s);
        assert(run_pool(bs, pool, s.push(x)) == run_pool(bs, step_pool(bs, pool, x), s));
        assert(run_pool(bs, pool, s) == pool);
        assert(run_emits(bs, step_pool(bs, pool, x), s) == Seq::<Order>::empty());
        assert(run_emits(bs, pool, s.push(x)) =~= run_emits(bs, pool, s) + tail);
    } else {
        assert(s.push(x)[0] == s[0]);
        assert(s.push(x).drop_first() =~= s.drop_first().push(x));
        let p0 = step_pool(bs, pool, s[0]);
        lemma_run_snoc(bs, p0, s.drop_first(), x);
        assert(run_pool(bs, pool, s.push(x)) == run_pool(bs, p0, s.drop_first().push(x)));
        assert(run_pool(bs, pool, s) == run_pool(bs, p0, s.drop_first()));
        let head = (match step_emit(bs, pool, s[0]) {
            Some(o) => seq![o],
            None => Seq::<Order>::empty(),
        });
        assert(run_emits(bs, pool, s.push(x)) == head + run_emits(bs, p0, s.drop_first().push(x)));
        assert(run_emits(bs, pool, s) == head + run_emits(bs, p0, s.drop_first()));
        assert(head + (run_emits(bs, p0, s.drop_first()) + tail) =~= (head + run_emits(
            bs,
            p0,
            s.drop_first(),
        )) + tail);
    }
}

/// No bound keymap is a strict prefix of `km` in the table `bs`.
pub open spec fn no_bound_strict_prefix(
    bs: Seq<(Seq<Seq<char>>, Order)>,
    km: Seq<Seq<char>>,
) -> bool {
    forall|i: int|
        0 <= i < bs.len() ==> !(bs[i].0.len() < km.len() && km.take(bs[i].0.len() as int)
            == bs[i].0)
}

/// While a bound keymap with no bound strict prefix is being typed from
/// an idle matcher, every proper prefix of it stays pending and nothing
/// is emitted.
proof fn lemma_feed_prefix(bs: Seq<(Seq<Seq<char>>, Order)>, km: Seq<Seq<char>>, j: int)
    requires
        lookup(bs, km) is Some,
        no_bound_strict_prefix(bs, km),
        0 <= j < km.len(),
    ensures
        run_pool(bs, Seq::empty(), km.take(j)) == km.take(j),
        run_emits(bs, Seq::empty(), km.take(j)) == Seq::<Order>::empty(),
    decreases j,
{
    if j == 0 {
        assert(km.take(0) =~= Seq::<Seq<char>>::empty());
    } else {
        lemma_feed_prefix(bs, km, j - 1);
        lemma_run_snoc(bs, Seq::empty(), km.take(j - 1), km[j - 1]);
        let c = km.take(j - 1).push(km[j - 1]);
        assert(c =~= km.take(j));
        assert forall|i: int| 0 <= i < bs.len() implies bs[i].0 != km.take(j) by {
            if bs[i].0 == km.take(j) {
                assert(bs[i].0.len() == j && j < km.len());
                assert(km.take(bs[i].0.len() as int) == bs[i].0);
            }
        }
        lemma_lookup_absent(bs, km.take(j));
        let o = lookup(bs, km)->Some_0;
        lemma_lookup_exists(bs, km, o);
        let w = choose|i: int| 0 <= i < bs.len() && bs[i].0 == km && bs[i].1 == o;
        assert(bs[w].0.len() > km.take(j).len());
        assert(bs[w].0.take(km.take(j).len() as int) =~= km.take(j));
        assert(viable(bs, km.take(j)));
    }
}

/// Feeding a bound keymap of length `n` with no bound strict prefix into
/// an idle matcher emits its order exactly once and leaves the pending
/// sequence empty.
pub proof fn lemma_bound_sequence_resolves(
    bs: Seq<(Seq<Seq<char>>, Order)>,
    km: Seq<Seq<char>>,
    o: Order,
)
    requires
        lookup(bs, km) == Some(o),
        km.len() > 0,
        no_bound_strict_prefix(bs, km),
    ensures
        run_emits(bs, Seq::empty(), km) == seq![o],
        run_pool(bs, Seq::empty(), km) == Seq::<Seq<char>>::empty(),
{
    let n = km.len() as int;
    lemma_feed_prefix(bs, km, n - 1);
    lemma_run_snoc(bs, Seq::empty(), km.take(n - 1), km[n - 1]);
    assert(km.take(n - 1).push(km[n - 1]) =~= km);
    assert(run_emits(bs, Seq::empty(), km) =~= seq![o]);
}

/// A key that completes no bound keymap and leaves no viable
/// continuation clears the pending sequence and emits nothing.
pub proof fn lemma_dead_key_clears(
    bs: Seq<(Seq<Seq<char>>, Order)>,
    pool: Seq<Seq<char>>,
    k: Seq<char>,
)
    requires
        lookup(bs, pool.push(k)) is None,
        !viable(bs, pool.push(k)),
    ensures
        step_pool(bs, pool, k) == Seq::<Seq<char>>::empty(),
        step_emit(bs, pool, k) is None,
{
}

/// The pending sequence reached while typing `b` from an idle matcher is
/// always a slice of `b` ending at the keys typed so far, and it reaches
/// back to the start only while fewer than `a_len` keys were typed.
spec fn shadow_trace_ok(a_len: int, b: Seq<Seq<char>>, j: int, p: Seq<Seq<char>>) -> bool {
    &&& p.len() <= j
    &&& p == b.subrange(j - p.len(), j)
    &&& (p.len() == j ==> j < a_len)
}

proof fn lemma_shadow_trace(
    bs: Seq<(Seq<Seq<char>>, Order)>,
    a: Seq<Seq<char>>,
    b: Seq<Seq<char>>,
    j: int,
)
    requires
        lookup(bs, a) is Some,
        a.len() > 0,
        a.len() < b.len(),
        b.take(a.len() as int) == a,
        0 <= j <= b.len(),
    ensures
        shadow_trace_ok(a.len() as int, b, j, run_pool(bs, Seq::empty(), b.take(j))),
    decreases j,
{
    if j == 0 {
        assert(b.take(0) =~= Seq::<Seq<char>>::empty());
        assert(Seq::<Seq<char>>::empty() =~= b.subrange(0, 0));
    } else {
        lemma_shadow_trace(bs, a, b, j - 1);
        lemma_run_snoc(bs, Seq::empty(), b.take(j - 1), b[j - 1]);
        assert(b.take(j - 1).push(b[j - 1]) =~= b.take(j));
        let p = run_pool(bs, Seq::empty(), b.take(j - 1));
        let c = p.push(b[j - 1]);
        assert(c =~= b.subrange(j - 1 - p.len(), j));
        let q = run_pool(bs, Seq::empty(), b.take(j));
        assert(q == step_pool(bs, p, b[j - 1]));
        if lookup(bs, c) is Some {
            assert(q =~= b.subrange(j, j));
        } else if viable(bs, c) {
            assert(q == c);
            if c.len() == j {
                assert(p.len() == j - 1);
                assert(j - 1 < a.len());
                if j == a.len() {
                    assert(c =~= a);
                    assert(false);
                }
            }
        } else {
            assert(q =~= b.subrange(j, j));
        }
    }
}

/// If bound keymap `a` is a strict prefix of keymap `b` and no bound
/// keymap is a strict prefix of `a`, typing `a`'s keys from an idle
/// matcher resolves to `a`'s order, and while typing all of `b` the
/// candidate sequence never equals `b`: the longer binding is
/// unreachable by design.
pub proof fn lemma_prefix_shadows(
    bs: Seq<(Seq<Seq<char>>, Order)>,
    a: Seq<Seq<char>>,
    oa: Order,
    b: Seq<Seq<char>>,
)
    requires
        lookup(bs, a) == Some(oa),
        a.len() > 0,
        no_bound_strict_prefix(bs, a),
        a.len() < b.len(),
        b.take(a.len() as int) == a,
    ensures
        run_emits(bs, Seq::empty(), a) == seq![oa],
        forall|j: int|
            0 <= j < b.len() ==> run_pool(bs, Seq::empty(), b.take(j)).push(b[j]) != b,
{
    lemma_bound_sequence_resolves(bs, a, oa);
    assert forall|j: int|
        0 <= j < b.len() implies run_pool(bs, Seq::empty(), b.take(j)).push(b[j]) != b by {
        lemma_shadow_trace(bs, a, b, j);
        let p = run_pool(bs, Seq::empty(), b.take(j));
        let c = p.push(b[j]);
        if c == b {
            assert(c.len() == b.len());
            assert(p.len() == b.len() - 1);
            assert(p.len() <= j && j < b.len());
            assert(p.len() == j);
            assert(j < a.len());
            assert(b.len() == j + 1 <= a.len());
            assert(false);
        }
    }
}

pub uninterp spec fn viks_keymap_tokens(s: Seq<char>) -> Option<Seq<Seq<char>>>;

/// Relies on viks::Keymap::new and the canonical display form of
/// viks::Key: parsing a key-sequence string either fails or yields a key
/// sequence determined by the string alone, and each parsed key is handed
/// back here as its canonical token. Only bare sequences (no `<`) are
/// handed over: inside a bracketed group viks can abort on a modifier
/// combination it cannot represent, while on bare characters it returns.
#[verifier::external_body]
fn viks_parse_keymap(s: &str) -> (r: Option<Vec<Key>>)
    requires
        forall|i: int| 0 <= i < s@.len() ==> s@[i] != '<',
    ensures
        match r {
            Some(ks) => viks_keymap_tokens(s@) == Some(tokens_of(ks@)),
            None => viks_keymap_tokens(s@) is None,
        },
{
    match viks::Keymap::new(s) {
        Ok(km) => Some(
            km.as_vec().iter().map(|k| Key::from_chars(k.to_string().chars().collect())).collect(),
        ),
        Err(_) => None,
    }
}

/// The binding table the program starts with: the key sequence written
/// `ZZ` resolves to the exit order. Parsing the table is fallible by
/// policy: a malformed constant must surface as an error, not crash the
/// process.
pub fn default_bindings() -> (r: Result<Vec<Binding>, Error>)
    ensures
        match r {
            Ok(bs) => {
                &&& viks_keymap_tokens("ZZ"@) matches Some(ks)
                &&& viks_keymap_tokens("ZZ"@)->Some_0.len() > 0
                &&& table_of(bs@) =~= seq![(viks_keymap_tokens("ZZ"@)->Some_0, Order::Exit)]
            },
            Err(_) => !{
                &&& viks_keymap_tokens("ZZ"@) matches Some(ks)
                &&& viks_keymap_tokens("ZZ"@)->Some_0.len() > 0
            },
        },
{
    proof {
        reveal_strlit("ZZ");
        assert("ZZ"@ =~= seq!['Z', 'Z']);
    }
    match viks_parse_keymap("ZZ") {
        Some(keys) => {
            if keys.len() > 0 {
                let b = Binding::new(keys, Order::Exit);
                let mut bs: Vec<Binding> = Vec::new();
                bs.push(b);
                proof {
                    assert(table_of(bs@) =~= seq![(viks_keymap_tokens("ZZ"@)->Some_0, Order::Exit)]);
                }
                Ok(bs)
            } else {
                Err(Error::new("the exit keymap is empty"))
            }
        },
        None => Err(Error::new("the exit keymap failed to parse")),
    }
}

} // verus!
