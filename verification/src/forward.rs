//! The forward pipeline: turning consumed messages into the JSON object that
//! is written to blob storage.
//!
//! A forward run consumes from the broker and, unless nothing was received,
//! writes one JSON object whose members are the stored messages: each key is
//! the message counter value as a decimal string, each value the payload as a
//! JSON string.  Members appear in lexicographic order of their keys, and
//! string values are escaped as JSON asks: quote, backslash and the named
//! control characters by their two-character escapes, any other control
//! character as `\u00` followed by two lowercase hex digits.

use vstd::prelude::*;
use vstd::multiset::Multiset;
use crate::consumer::ReceivedMessage;

verus! {

/// The decimal representation of `n` as ASCII bytes.
pub open spec fn dec_rep(n: int) -> Seq<u8>
    recommends
        0 <= n,
    decreases n,
{
    if n < 10 {
        seq![(48 + n) as u8]
    } else {
        dec_rep(n / 10).push((48 + n % 10) as u8)
    }
}

/// The lowercase hex digit of a value below 16.
pub open spec fn hex_digit(n: u8) -> u8
    recommends
        n < 16,
{
    if n < 10 {
        (48 + n) as u8
    } else {
        (87 + n) as u8
    }
}

/// How one byte of a string value appears inside a JSON string.
pub open spec fn escape_byte(b: u8) -> Seq<u8> {
    if b == 0x22 {
        seq![0x5Cu8, 0x22u8]
    } else if b == 0x5C {
        seq![0x5Cu8, 0x5Cu8]
    } else if b == 0x08 {
        seq![0x5Cu8, 0x62u8]
    } else if b == 0x09 {
        seq![0x5Cu8, 0x74u8]
    } else if b == 0x0A {
        seq![0x5Cu8, 0x6Eu8]
    } else if b == 0x0C {
        seq![0x5Cu8, 0x66u8]
    } else if b == 0x0D {
        seq![0x5Cu8, 0x72u8]
    } else if b < 0x20 {
        seq![0x5Cu8, 0x75u8, 0x30u8, 0x30u8, hex_digit(b / 16), hex_digit(b % 16)]
    } else {
        seq![b]
    }
}

/// A byte sequence escaped for use inside a JSON string.
pub open spec fn escape_bytes(s: Seq<u8>) -> Seq<u8>
    decreases s.len(),
{
    if s.len() == 0 {
        Seq::empty()
    } else {
        escape_byte(s[0]) + escape_bytes(s.drop_first())
    }
}

/// One object member: `"key":"value"` with the key in decimal and the value
/// escaped.
pub open spec fn entry_rep(k: u8, v: Seq<u8>) -> Seq<u8> {
    seq![0x22u8] + dec_rep(k as int) + seq![0x22u8, 0x3Au8, 0x22u8] + escape_bytes(v) + seq![0x22u8]
}

/// The members of the object, separated by commas.
pub open spec fn object_body(s: Seq<(u8, Seq<u8>)>) -> Seq<u8>
    decreases s.len(),
{
    if s.len() == 0 {
        Seq::empty()
    } else if s.len() == 1 {
        entry_rep(s[0].0, s[0].1)
    } else {
        entry_rep(s[0].0, s[0].1) + seq![0x2Cu8] + object_body(s.drop_first())
    }
}

/// The whole JSON object.
pub open spec fn object_rep(s: Seq<(u8, Seq<u8>)>) -> Seq<u8> {
    seq![0x7Bu8] + object_body(s) + seq![0x7Du8]
}

/// Lexicographic order on byte sequences.
pub open spec fn lex_le(a: Seq<u8>, b: Seq<u8>) -> bool
    decreases a.len(),
{
    if a.len() == 0 {
        true
    } else if b.len() == 0 {
        false
    } else if a[0] < b[0] {
        true
    } else if a[0] > b[0] {
        false
    } else {
        lex_le(a.drop_first(), b.drop_first())
    }
}

/// Key order of the object: lexicographic on the decimal representations.
pub open spec fn key_le(j: u8, k: u8) -> bool {
    lex_le(dec_rep(j as int), dec_rep(k as int))
}

/// `e` inserted in front of the first entry it does not come after.
pub open spec fn insert_entry(e: (u8, Seq<u8>), s: Seq<(u8, Seq<u8>)>) -> Seq<(u8, Seq<u8>)>
    decreases s.len(),
{
    if s.len() == 0 {
        seq![e]
    } else if key_le(e.0, s[0].0) {
        seq![e] + s
    } else {
        seq![s[0]] + insert_entry(e, s.drop_first())
    }
}

/// The entries in key order: insertion sort.
pub open spec fn sort_entries(s: Seq<(u8, Seq<u8>)>) -> Seq<(u8, Seq<u8>)>
    decreases s.len(),
{
    if s.len() == 0 {
        Seq::empty()
    } else {
        insert_entry(s[0], sort_entries(s.drop_first()))
    }
}

/// Stored messages as mathematical pairs of key and payload.
pub open spec fn message_entries(ms: Seq<ReceivedMessage>) -> Seq<(u8, Seq<u8>)> {
    ms.map_values(|m: ReceivedMessage| (m.index, m.payload@))
}

/// All members stand in key order.
pub open spec fn entries_in_key_order(s: Seq<(u8, Seq<u8>)>) -> bool {
    forall|i: int, j: int|
        0 <= i < j < s.len() ==> key_le((#[trigger] s[i]).0, (#[trigger] s[j]).0)
}

proof fn lemma_lex_le_total(a: Seq<u8>, b: Seq<u8>)
    ensures
        lex_le(a, b) || lex_le(b, a),
    decreases a.len(),
{
    if a.len() > 0 && b.len() > 0 && a[0] == b[0] {
        lemma_lex_le_total(a.drop_first(), b.drop_first());
    }
}

proof fn lemma_lex_le_trans(a: Seq<u8>, b: Seq<u8>, c: Seq<u8>)
    requires
        lex_le(a, b),
        lex_le(b, c),
    ensures
        lex_le(a, c),
    decreases a.len(),
{
    if a.len() > 0 && a[0] == b[0] && b[0] == c[0] {
        lemma_lex_le_trans(a.drop_first(), b.drop_first(), c.drop_first());
    }
}

proof fn lemma_empty_entries_multiset()
    ensures
        Seq::<(u8, Seq<u8>)>::empty().to_multiset() =~= Multiset::<(u8, Seq<u8>)>::empty(),
{
    broadcast use vstd::seq_lib::group_to_multiset_ensures;
    broadcast use vstd::multiset::group_multiset_axioms;

    assert forall|a: (u8, Seq<u8>)|
        Seq::<(u8, Seq<u8>)>::empty().to_multiset().count(a) == 0 by {
        assert(!Seq::<(u8, Seq<u8>)>::empty().contains(a));
    }
}

proof fn lemma_insert_entry_multiset(e: (u8, Seq<u8>), s: Seq<(u8, Seq<u8>)>)
    ensures
        insert_entry(e, s).to_multiset() =~= s.to_multiset().insert(e),
    decreases s.len(),
{
    broadcast use vstd::seq_lib::group_to_multiset_ensures;
    broadcast use vstd::multiset::group_multiset_axioms;

    lemma_empty_entries_multiset();
    assert(seq![e] =~= Seq::<(u8, Seq<u8>)>::empty().push(e));
    if s.len() == 0 {
        assert(s =~= Seq::<(u8, Seq<u8>)>::empty());
    } else if key_le(e.0, s[0].0) {
        vstd::seq_lib::lemma_multiset_commutative(seq![e], s);
    } else {
        lemma_insert_entry_multiset(e, s.drop_first());
        vstd::seq_lib::lemma_multiset_commutative(seq![s[0]], insert_entry(e, s.drop_first()));
        vstd::seq_lib::lemma_multiset_commutative(seq![s[0]], s.drop_first());
        assert(s =~= seq![s[0]] + s.drop_first());
        assert(seq![s[0]] =~= Seq::<(u8, Seq<u8>)>::empty().push(s[0]));
    }
}

proof fn lemma_insert_entry_ordered(e: (u8, Seq<u8>), s: Seq<(u8, Seq<u8>)>)
    requires
        entries_in_key_order(s),
    ensures
        entries_in_key_order(insert_entry(e, s)),
        forall|k: int|
            0 <= k < insert_entry(e, s).len() ==> (#[trigger] insert_entry(e, s)[k] == e
                || s.contains(insert_entry(e, s)[k])),
    decreases s.len(),
{
    let t = insert_entry(e, s);
    if s.len() == 0 {
        assert(t =~= seq![e]);
    } else if key_le(e.0, s[0].0) {
        assert(t =~= seq![e] + s);
        assert forall|i: int, j: int| 0 <= i < j < t.len() implies key_le(
            (#[trigger] t[i]).0,
            (#[trigger] t[j]).0,
        ) by {
            if i == 0 {
                if j > 1 {
                    lemma_lex_le_trans(
                        dec_rep(e.0 as int),
                        dec_rep(s[0].0 as int),
                        dec_rep(s[j - 1].0 as int),
                    );
                }
            }
        }
    } else {
        lemma_lex_le_total(dec_rep(e.0 as int), dec_rep(s[0].0 as int));
        lemma_insert_entry_ordered(e, s.drop_first());
        let u = insert_entry(e, s.drop_first());
        assert(t =~= seq![s[0]] + u);
        assert forall|i: int, j: int| 0 <= i < j < t.len() implies key_le(
            (#[trigger] t[i]).0,
            (#[trigger] t[j]).0,
        ) by {
            if i == 0 {
                assert(t[j] == u[j - 1]);
                if u[j - 1] == e {
                    assert(key_le(s[0].0, e.0));
                } else {
                    let w = choose|w: int| 0 <= w < s.drop_first().len()
                        && s.drop_first()[w] == u[j - 1];
                    assert(s[w + 1] == u[j - 1]);
                    assert(key_le(s[0].0, s[w + 1].0));
                }
            } else {
                assert(t[i] == u[i - 1] && t[j] == u[j - 1]);
            }
        }
        assert forall|k: int| 0 <= k < t.len() implies (#[trigger] t[k] == e || s.contains(
            t[k],
        )) by {
            if k == 0 {
                assert(s[0] == t[0]);
            } else {
                assert(t[k] == u[k - 1]);
                if u[k - 1] != e {
                    let w = choose|w: int| 0 <= w < s.drop_first().len()
                        && s.drop_first()[w] == u[k - 1];
                    assert(s[w + 1] == t[k]);
                }
            }
        }
    }
}

/// The sorted entries are exactly the stored entries, in key order: what the
/// encoder writes between the braces is a permutation of the messages, with
/// the keys' decimal strings ascending lexicographically.
pub proof fn lemma_sort_entries_ordered(s: Seq<(u8, Seq<u8>)>)
    ensures
        entries_in_key_order(sort_entries(s)),
        sort_entries(s).to_multiset() =~= s.to_multiset(),
    decreases s.len(),
{
    broadcast use vstd::seq_lib::group_to_multiset_ensures;
    broadcast use vstd::multiset::group_multiset_axioms;

    if s.len() > 0 {
        lemma_sort_entries_ordered(s.drop_first());
        lemma_insert_entry_ordered(s[0], sort_entries(s.drop_first()));
        lemma_insert_entry_multiset(s[0], sort_entries(s.drop_first()));
        vstd::seq_lib::lemma_multiset_commutative(seq![s[0]], s.drop_first());
        lemma_empty_entries_multiset();
        assert(s =~= seq![s[0]] + s.drop_first());
        assert(seq![s[0]] =~= Seq::<(u8, Seq<u8>)>::empty().push(s[0]));
        assert(sort_entries(s).to_multiset() =~= s.to_multiset());
    }
}

/// The decimal representation of `n`, executable.
fn decimal_key(n: u8) -> (r: Vec<u8>)
    ensures
        r@ == dec_rep(n as int),
{
    let mut r: Vec<u8> = Vec::new();
    if n >= 100 {
        r.push(48 + n / 100);
    }
    if n >= 10 {
        r.push(48 + (n / 10) % 10);
    }
    r.push(48 + n % 10);
    proof {
        reveal_with_fuel(dec_rep, 4);
        if n >= 100 {
            assert((n as int / 10) / 10 == n as int / 100) by (nonlinear_arith);
            assert(n as int / 100 < 10);
            assert(r@ =~= dec_rep(n as int));
        } else if n >= 10 {
            assert(n as int / 10 < 10);
            assert((n as int / 10) % 10 == n as int / 10);
            assert(r@ =~= dec_rep(n as int));
        } else {
            assert(r@ =~= dec_rep(n as int));
        }
    }
    r
}

/// Whether `a@.skip(i)` comes lexicographically before or equal to
/// `b@.skip(i)`.
fn lex_le_from(a: &Vec<u8>, b: &Vec<u8>, i: usize) -> (r: bool)
    requires
        i <= a@.len(),
        i <= b@.len(),
    ensures
        r == lex_le(a@.skip(i as int), b@.skip(i as int)),
    decreases a@.len() - i,
{
    proof {
        if i < a@.len() && i < b@.len() {
            assert(a@.skip(i as int).drop_first() =~= a@.skip(i as int + 1));
            assert(b@.skip(i as int).drop_first() =~= b@.skip(i as int + 1));
        }
    }
    if i == a.len() {
        true
    } else if i == b.len() {
        false
    } else if a[i] < b[i] {
        true
    } else if a[i] > b[i] {
        false
    } else {
        lex_le_from(a, b, i + 1)
    }
}

/// Whether the decimal form of `j` sorts before or equal to that of `k`.
fn key_le_exec(j: u8, k: u8) -> (r: bool)
    ensures
        r == key_le(j, k),
{
    let a = decimal_key(j);
    let b = decimal_key(k);
    proof {
        assert(a@.skip(0) =~= a@);
        assert(b@.skip(0) =~= b@);
    }
    lex_le_from(&a, &b, 0)
}

/// The lowercase hex digit of a value below 16, executable.
fn hex_digit_exec(n: u8) -> (r: u8)
    requires
        n < 16,
    ensures
        r == hex_digit(n),
{
    if n < 10 {
        48 + n
    } else {
        87 + n
    }
}

/// Appends the escape of one byte.
fn push_escaped(out: &mut Vec<u8>, b: u8)
    ensures
        final(out)@ == old(out)@ + escape_byte(b),
{
    if b == 0x22 {
        out.push(0x5C);
        out.push(0x22);
    } else if b == 0x5C {
        out.push(0x5C);
        out.push(0x5C);
    } else if b == 0x08 {
        out.push(0x5C);
        out.push(0x62);
    } else if b == 0x09 {
        out.push(0x5C);
        out.push(0x74);
    } else if b == 0x0A {
        out.push(0x5C);
        out.push(0x6E);
    } else if b == 0x0C {
        out.push(0x5C);
        out.push(0x66);
    } else if b == 0x0D {
        out.push(0x5C);
        out.push(0x72);
    } else if b < 0x20 {
        out.push(0x5C);
        out.push(0x75);
        out.push(0x30);
        out.push(0x30);
        out.push(hex_digit_exec(b / 16));
        out.push(hex_digit_exec(b % 16));
    } else {
        out.push(b);
    }
    proof {
        assert(out@ =~= old(out)@ + escape_byte(b));
    }
}

proof fn lemma_escape_append(a: Seq<u8>, b: Seq<u8>)
    ensures
        escape_bytes(a + b) == escape_bytes(a) + escape_bytes(b),
    decreases a.len(),
{
    if a.len() == 0 {
        assert(a + b =~= b);
        assert(escape_bytes(a) + escape_bytes(b) =~= escape_bytes(b));
    } else {
        assert((a + b).drop_first() =~= a.drop_first() + b);
        lemma_escape_append(a.drop_first(), b);
        assert(escape_byte(a[0]) + (escape_bytes(a.drop_first()) + escape_bytes(b)) =~= (escape_byte(
            a[0],
        ) + escape_bytes(a.drop_first())) + escape_bytes(b));
        assert(escape_bytes(a + b) =~= escape_bytes(a) + escape_bytes(b));
    }
}

/// Appends the sequence escaped for use inside a JSON string.
fn escape_into(out: &mut Vec<u8>, s: &Vec<u8>)
    ensures
        final(out)@ == old(out)@ + escape_bytes(s@),
{
    proof {
        assert(out@ =~= out@ + escape_bytes(s@.take(0)));
    }
    let n = s.len();
    for i in 0..n
        invariant
            n == s@.len(),
            out@ == old(out)@ + escape_bytes(s@.take(i as int)),
    {
        proof {
            assert(s@.take(i as int + 1) =~= s@.take(i as int) + seq![s@[i as int]]);
            lemma_escape_append(s@.take(i as int), seq![s@[i as int]]);
            assert(seq![s@[i as int]].drop_first() =~= Seq::<u8>::empty());
            assert(escape_bytes(Seq::<u8>::empty()) =~= Seq::<u8>::empty());
            assert(escape_bytes(seq![s@[i as int]]) =~= escape_byte(s@[i as int]));
        }
        push_escaped(out, s[i]);
        proof {
            assert(out@ =~= old(out)@ + escape_bytes(s@.take(i as int + 1)));
        }
    }
    proof {
        assert(s@.take(n as int) =~= s@);
    }
}

/// The first position of `sorted` whose key the new key must come before,
/// searching from `from`.
fn find_pos(sorted: &Vec<ReceivedMessage>, key: u8, from: usize) -> (p: usize)
    requires
        from <= sorted@.len(),
        forall|i: int| 0 <= i < from ==> !key_le(key, (#[trigger] sorted@[i]).index),
    ensures
        from <= p <= sorted@.len(),
        forall|i: int| 0 <= i < p ==> !key_le(key, (#[trigger] sorted@[i]).index),
        p < sorted@.len() ==> key_le(key, sorted@[p as int].index),
    decreases sorted@.len() - from,
{
    if from == sorted.len() {
        from
    } else if key_le_exec(key, sorted[from].index) {
        from
    } else {
        find_pos(sorted, key, from + 1)
    }
}

proof fn lemma_insert_entry_at(e: (u8, Seq<u8>), s: Seq<(u8, Seq<u8>)>, p: int)
    requires
        0 <= p <= s.len(),
        forall|i: int| 0 <= i < p ==> !key_le(e.0, (#[trigger] s[i]).0),
        p < s.len() ==> key_le(e.0, s[p].0),
    ensures
        insert_entry(e, s) == s.take(p) + seq![e] + s.skip(p),
    decreases p,
{
    if p == 0 {
        if s.len() == 0 {
            assert(insert_entry(e, s) =~= s.take(0) + seq![e] + s.skip(0));
        } else {
            assert(key_le(e.0, s[0].0));
            assert(seq![e] + s =~= s.take(0) + seq![e] + s.skip(0));
        }
    } else {
        assert(!key_le(e.0, s[0].0));
        lemma_insert_entry_at(e, s.drop_first(), p - 1);
        assert(seq![s[0]] + (s.drop_first().take(p - 1) + seq![e] + s.drop_first().skip(p - 1))
            =~= s.take(p) + seq![e] + s.skip(p));
        assert(insert_entry(e, s) =~= s.take(p) + seq![e] + s.skip(p));
    }
}

/// Inserts one message in front of the first entry its key does not come
/// after.
fn insert_message(sorted: &mut Vec<ReceivedMessage>, m: ReceivedMessage)
    ensures
        message_entries(final(sorted)@) == insert_entry(
            (m.index, m.payload@),
            message_entries(old(sorted)@),
        ),
{
    let ghost e = (m.index, m.payload@);
    let ghost s0 = message_entries(sorted@);
    let p = find_pos(sorted, m.index, 0);
    proof {
        assert(forall|i: int|
            0 <= i < p ==> !key_le(e.0, (#[trigger] s0[i]).0)) by {
            assert(forall|i: int| 0 <= i < s0.len() ==> (#[trigger] s0[i]).0 == sorted@[i].index);
        }
        assert(p < s0.len() ==> key_le(e.0, s0[p as int].0)) by {
            assert(forall|i: int| 0 <= i < s0.len() ==> (#[trigger] s0[i]).0 == sorted@[i].index);
        }
        lemma_insert_entry_at(e, s0, p as int);
    }
    sorted.insert(p, m);
    proof {
        assert(message_entries(sorted@) =~= s0.take(p as int) + seq![e] + s0.skip(p as int));
    }
}

/// The messages in key order.
fn sort_messages(messages: Vec<ReceivedMessage>) -> (r: Vec<ReceivedMessage>)
    ensures
        message_entries(r@) == sort_entries(message_entries(messages@)),
{
    let ghost orig = messages@;
    let mut rest = messages;
    let mut sorted: Vec<ReceivedMessage> = Vec::new();
    proof {
        assert(orig.skip(orig.len() as int) =~= Seq::<ReceivedMessage>::empty());
        assert(message_entries(Seq::<ReceivedMessage>::empty()) =~= Seq::<(u8, Seq<u8>)>::empty());
    }
    while rest.len() > 0
        invariant
            rest@ =~= orig.take(rest@.len() as int),
            rest@.len() <= orig.len(),
            message_entries(sorted@) == sort_entries(
                message_entries(orig.skip(rest@.len() as int)),
            ),
        decreases rest@.len(),
    {
        let ghost k = rest@.len() as int;
        let m = match rest.pop() {
            Some(m) => m,
            None => {
                proof {
                    assert(false);
                }
                unreached()
            },
        };
        proof {
            assert(rest@ =~= orig.take(k - 1));
            let t = message_entries(orig.skip(k - 1));
            assert(t[0] == (m.index, m.payload@));
            assert(t.drop_first() =~= message_entries(orig.skip(k)));
        }
        insert_message(&mut sorted, m);
    }
    proof {
        assert(orig.skip(0) =~= orig);
    }
    sorted
}

proof fn lemma_object_body_push(s: Seq<(u8, Seq<u8>)>, e: (u8, Seq<u8>))
    ensures
        object_body(s.push(e)) == if s.len() == 0 {
            entry_rep(e.0, e.1)
        } else {
            object_body(s) + seq![0x2Cu8] + entry_rep(e.0, e.1)
        },
    decreases s.len(),
{
    if s.len() == 0 {
        assert(s.push(e) =~= seq![e]);
        assert(object_body(seq![e]) == entry_rep(e.0, e.1));
    } else if s.len() == 1 {
        assert(s.push(e).drop_first() =~= seq![e]);
        assert(object_body(seq![e]) == entry_rep(e.0, e.1));
        assert(entry_rep(s[0].0, s[0].1) + seq![0x2Cu8] + entry_rep(e.0, e.1) =~= entry_rep(
            s[0].0,
            s[0].1,
        ) + (seq![0x2Cu8] + entry_rep(e.0, e.1)));
        assert(object_body(s.push(e)) =~= object_body(s) + seq![0x2Cu8] + entry_rep(e.0, e.1));
    } else {
        assert(s.push(e).drop_first() =~= s.drop_first().push(e));
        lemma_object_body_push(s.drop_first(), e);
        assert(object_body(s.push(e)) =~= object_body(s) + seq![0x2Cu8] + entry_rep(e.0, e.1));
    }
}

/// Encodes the stored messages as one JSON object, members in key order.
#[verifier::rlimit(50)]
pub fn encode_messages(messages: Vec<ReceivedMessage>) -> (r: Vec<u8>)
    ensures
        r@ == object_rep(sort_entries(message_entries(messages@))),
{
    let ghost goal = sort_entries(message_entries(messages@));
    let sorted = sort_messages(messages);
    let ghost es = message_entries(sorted@);
    let mut out: Vec<u8> = Vec::new();
    out.push(0x7B);
    proof {
        assert(es.take(0) =~= Seq::<(u8, Seq<u8>)>::empty());
        assert(out@ =~= seq![0x7Bu8] + object_body(es.take(0)));
    }
    let n = sorted.len();
    for i in 0..n
        invariant
            n == sorted@.len(),
            es == message_entries(sorted@),
            out@ == seq![0x7Bu8] + object_body(es.take(i as int)),
    {
        if i > 0 {
            out.push(0x2C);
        }
        out.push(0x22);
        let key_bytes = decimal_key(sorted[i].index);
        out.extend_from_slice(key_bytes.as_slice());
        out.push(0x22);
        out.push(0x3A);
        out.push(0x22);
        escape_into(&mut out, &sorted[i].payload);
        out.push(0x22);
        proof {
            let e = es[i as int];
            assert(e == (sorted@[i as int].index, sorted@[i as int].payload@));
            assert(es.take(i as int + 1) =~= es.take(i as int).push(e));
            lemma_object_body_push(es.take(i as int), e);
            assert(out@ =~= seq![0x7Bu8] + object_body(es.take(i as int + 1)));
        }
    }
    out.push(0x7D);
    proof {
        assert(es.take(n as int) =~= es);
        assert(out@ =~= object_rep(goal));
    }
    out
}

/// What a forward run writes to blob storage: nothing when the consumer
/// counted no poll results (the empty-result guard), otherwise the JSON
/// object of the stored messages.
pub fn forward_content(message_counter: u8, messages: Vec<ReceivedMessage>) -> (r: Option<Vec<u8>>)
    ensures
        message_counter == 0 <==> r is None,
        message_counter != 0 ==> (r matches Some(c) && c@ == object_rep(
            sort_entries(message_entries(messages@)),
        )),
{
    if message_counter == 0 {
        None
    } else {
        Some(encode_messages(messages))
    }
}

} // verus!
