//! The canonical byte encoding that hashes and signatures are computed over:
//! integers little-endian, lengths as eight bytes, a one-byte tag before an
//! optional value and a four-byte variant index before each enum payload.
use vstd::prelude::*;
use vstd::utf8::encode_utf8;

use crate::domains::{Domain, Record};

verus! {

/// The `n` low bytes of `x`, least significant first.
pub open spec fn le_bytes(x: nat, n: nat) -> Seq<u8>
    decreases n,
{
    if n == 0 {
        Seq::empty()
    } else {
        seq![(x % 256) as u8] + le_bytes(x / 256, (n - 1) as nat)
    }
}

pub open spec fn enc_u16(x: u16) -> Seq<u8> {
    le_bytes(x as nat, 2)
}

pub open spec fn enc_u32(x: u32) -> Seq<u8> {
    le_bytes(x as nat, 4)
}

pub open spec fn enc_len(n: nat) -> Seq<u8> {
    le_bytes(n, 8)
}

pub open spec fn enc_str(s: Seq<char>) -> Seq<u8> {
    enc_len(encode_utf8(s).len()) + encode_utf8(s)
}

pub open spec fn enc_opt_str(o: Option<String>) -> Seq<u8> {
    match o {
        Some(s) => seq![1u8] + enc_str(s@),
        None => seq![0u8],
    }
}

pub open spec fn enc_opt_bytes(o: Option<Seq<u8>>) -> Seq<u8> {
    match o {
        Some(b) => seq![1u8] + b,
        None => seq![0u8],
    }
}

pub open spec fn enc_domain(d: Domain) -> Seq<u8> {
    enc_str(d.tld@) + enc_str(d.sld@) + enc_opt_str(d.sub)
}

pub open spec fn enc_opt_domain(o: Option<Domain>) -> Seq<u8> {
    match o {
        Some(d) => seq![1u8] + enc_domain(d),
        None => seq![0u8],
    }
}

pub open spec fn enc_record(r: Record) -> Seq<u8> {
    match r {
        Record::A { index, target } => enc_u32(0) + enc_opt_str(index) + enc_opt_bytes(
            match target {
                Some(a) => Some(a@),
                None => None,
            },
        ),
        Record::AAAA { index, target } => enc_u32(1) + enc_opt_str(index) + enc_opt_bytes(
            match target {
                Some(a) => Some(a@),
                None => None,
            },
        ),
        Record::CNAME { index, target } => enc_u32(2) + enc_opt_str(index) + enc_opt_domain(target),
        Record::NS { index, target } => enc_u32(3) + enc_opt_str(index) + enc_opt_domain(target),
        Record::PTR { index, target } => enc_u32(4) + enc_opt_str(index) + enc_opt_domain(target),
        Record::TXT { index, data } => enc_u32(5) + enc_opt_str(index) + enc_opt_str(data),
        Record::SRV { at, priority, weight, port, target } => enc_u32(6) + enc_opt_str(at)
            + enc_u16(priority) + enc_u16(weight) + enc_u16(port) + enc_opt_domain(target),
    }
}

/// The records one after another, without a count.
pub open spec fn enc_record_items(rs: Seq<Record>) -> Seq<u8>
    decreases rs.len(),
{
    if rs.len() == 0 {
        Seq::empty()
    } else {
        enc_record_items(rs.drop_last()) + enc_record(rs.last())
    }
}

pub open spec fn enc_records(rs: Seq<Record>) -> Seq<u8> {
    enc_len(rs.len()) + enc_record_items(rs)
}


/// 256 to the power `n`.
pub open spec fn pow256(n: nat) -> nat
    decreases n,
{
    if n == 0 {
        1
    } else {
        256 * pow256((n - 1) as nat)
    }
}

/// The number that the first `n` bytes of `b` give, least significant first.
pub open spec fn read_le(b: Seq<u8>, n: nat) -> nat
    decreases n,
{
    if n == 0 {
        0
    } else {
        b[0] as nat + 256 * read_le(b.drop_first(), (n - 1) as nat)
    }
}

/// A length that the eight-byte count can hold.
pub open spec fn fits(n: nat) -> bool {
    n < pow256(8)
}

pub open spec fn str_fits(s: Seq<char>) -> bool {
    fits(encode_utf8(s).len())
}

pub open spec fn opt_str_fits(o: Option<String>) -> bool {
    match o {
        Some(s) => str_fits(s@),
        None => true,
    }
}

pub open spec fn domain_fits(d: Domain) -> bool {
    str_fits(d.tld@) && str_fits(d.sld@) && opt_str_fits(d.sub)
}

pub open spec fn opt_domain_fits(o: Option<Domain>) -> bool {
    match o {
        Some(d) => domain_fits(d),
        None => true,
    }
}

pub open spec fn record_fits(r: Record) -> bool {
    match r {
        Record::A { index, .. } => opt_str_fits(index),
        Record::AAAA { index, .. } => opt_str_fits(index),
        Record::CNAME { index, target } => opt_str_fits(index) && opt_domain_fits(target),
        Record::NS { index, target } => opt_str_fits(index) && opt_domain_fits(target),
        Record::PTR { index, target } => opt_str_fits(index) && opt_domain_fits(target),
        Record::TXT { index, data } => opt_str_fits(index) && opt_str_fits(data),
        Record::SRV { at, target, .. } => opt_str_fits(at) && opt_domain_fits(target),
    }
}

/// Every length in the records' encoding can be held by its count.
pub open spec fn records_fit(rs: Seq<Record>) -> bool {
    fits(rs.len()) && forall|i: int| 0 <= i < rs.len() ==> record_fits(#[trigger] rs[i])
}

/// How many bytes the string encoded at the front of `b` takes.
pub open spec fn str_span(b: Seq<u8>) -> int {
    8 + read_le(b, 8) as int
}

pub open spec fn opt_str_span(b: Seq<u8>) -> int {
    if b[0] == 0 {
        1
    } else {
        1 + str_span(b.skip(1))
    }
}

pub open spec fn domain_span(b: Seq<u8>) -> int {
    let a = str_span(b);
    let c = str_span(b.skip(a));
    a + c + opt_str_span(b.skip(a + c))
}

pub open spec fn opt_domain_span(b: Seq<u8>) -> int {
    if b[0] == 0 {
        1
    } else {
        1 + domain_span(b.skip(1))
    }
}

pub open spec fn opt_bytes_span(b: Seq<u8>, n: int) -> int {
    if b[0] == 0 {
        1
    } else {
        1 + n
    }
}

/// How many bytes the record encoded at the front of `b` takes.
pub open spec fn record_span(b: Seq<u8>) -> int {
    let tag = read_le(b, 4);
    let i = 4 + opt_str_span(b.skip(4));
    let r = b.skip(i);
    if tag == 0 {
        i + opt_bytes_span(r, 4)
    } else if tag == 1 {
        i + opt_bytes_span(r, 16)
    } else if tag <= 4 {
        i + opt_domain_span(r)
    } else if tag == 5 {
        i + opt_str_span(r)
    } else {
        i + 6 + opt_domain_span(r.skip(6))
    }
}

pub open spec fn record_items_span(b: Seq<u8>, n: nat) -> int
    decreases n,
{
    if n == 0 {
        0
    } else {
        let a = record_span(b);
        a + record_items_span(b.skip(a), (n - 1) as nat)
    }
}

/// How many bytes the record list encoded at the front of `b` takes.
pub open spec fn records_span(b: Seq<u8>) -> int {
    8 + record_items_span(b.skip(8), read_le(b, 8))
}

pub proof fn lemma_le_bytes_len(x: nat, n: nat)
    ensures
        le_bytes(x, n).len() == n,
    decreases n,
{
    if n > 0 {
        lemma_le_bytes_len(x / 256, (n - 1) as nat);
    }
}

/// Reading back `n` little-endian bytes gives the number written.
pub proof fn lemma_read_le(x: nat, n: nat, rest: Seq<u8>)
    requires
        x < pow256(n),
    ensures
        read_le(le_bytes(x, n) + rest, n) == x,
    decreases n,
{
    if n > 0 {
        let p = pow256((n - 1) as nat);
        assert(x / 256 < p) by (nonlinear_arith)
            requires
                x < 256 * p,
        ;
        lemma_read_le(x / 256, (n - 1) as nat, rest);
        assert((le_bytes(x, n) + rest).drop_first() =~= le_bytes(x / 256, (n - 1) as nat) + rest);
    }
}

proof fn lemma_skip_concat(a: Seq<u8>, b: Seq<u8>)
    ensures
        (a + b).skip(a.len() as int) =~= b,
{
}

pub proof fn lemma_str_span(s: Seq<char>, rest: Seq<u8>)
    requires
        str_fits(s),
    ensures
        str_span(enc_str(s) + rest) == enc_str(s).len(),
{
    let u = encode_utf8(s);
    lemma_le_bytes_len(u.len(), 8);
    assert(enc_str(s) + rest =~= le_bytes(u.len(), 8) + (u + rest));
    lemma_read_le(u.len(), 8, u + rest);
}

pub proof fn lemma_opt_str_span(o: Option<String>, rest: Seq<u8>)
    requires
        opt_str_fits(o),
    ensures
        opt_str_span(enc_opt_str(o) + rest) == enc_opt_str(o).len(),
{
    if let Some(s) = o {
        assert((enc_opt_str(o) + rest).skip(1) =~= enc_str(s@) + rest);
        lemma_str_span(s@, rest);
    }
}

pub proof fn lemma_domain_span(d: Domain, rest: Seq<u8>)
    requires
        domain_fits(d),
    ensures
        domain_span(enc_domain(d) + rest) == enc_domain(d).len(),
{
    let b = enc_domain(d) + rest;
    let t = enc_str(d.tld@);
    let l = enc_str(d.sld@);
    let o = enc_opt_str(d.sub);
    assert(b =~= t + (l + (o + rest)));
    lemma_str_span(d.tld@, l + (o + rest));
    assert(b.skip(t.len() as int) =~= l + (o + rest));
    lemma_str_span(d.sld@, o + rest);
    assert(b.skip((t.len() + l.len()) as int) =~= o + rest);
    lemma_opt_str_span(d.sub, rest);
}

pub proof fn lemma_opt_domain_span(o: Option<Domain>, rest: Seq<u8>)
    requires
        opt_domain_fits(o),
    ensures
        opt_domain_span(enc_opt_domain(o) + rest) == enc_opt_domain(o).len(),
{
    if let Some(d) = o {
        assert((enc_opt_domain(o) + rest).skip(1) =~= enc_domain(d) + rest);
        lemma_domain_span(d, rest);
    }
}


pub proof fn lemma_pow256_small()
    ensures
        pow256(4) == 4294967296,
        pow256(8) == 18446744073709551616,
{
    assert(pow256(0) == 1);
    assert(pow256(1) == 256);
    assert(pow256(2) == 65536);
    assert(pow256(3) == 16777216);
    assert(pow256(4) == 4294967296);
    assert(pow256(5) == 1099511627776);
    assert(pow256(6) == 281474976710656);
    assert(pow256(7) == 72057594037927936);
    assert(pow256(8) == 18446744073709551616);
}

/// The record's encoding split as its tag, its scope and what follows them.
proof fn lemma_record_head(tag: u32, index: Option<String>, tail: Seq<u8>, rest: Seq<u8>)
    requires
        opt_str_fits(index),
    ensures
        enc_u32(tag).len() == 4,
        ({
            let b = enc_u32(tag) + enc_opt_str(index) + tail + rest;
            &&& read_le(b, 4) == tag
            &&& 4 + opt_str_span(b.skip(4)) == 4 + enc_opt_str(index).len()
            &&& b.skip(4 + enc_opt_str(index).len() as int) =~= tail + rest
        }),
{
    let b = enc_u32(tag) + enc_opt_str(index) + tail + rest;
    lemma_pow256_small();
    lemma_le_bytes_len(tag as nat, 4);
    assert(b =~= enc_u32(tag) + (enc_opt_str(index) + tail + rest));
    lemma_read_le(tag as nat, 4, enc_opt_str(index) + tail + rest);
    assert(b.skip(4) =~= enc_opt_str(index) + (tail + rest));
    lemma_opt_str_span(index, tail + rest);
}

pub proof fn lemma_record_span(r: Record, rest: Seq<u8>)
    requires
        record_fits(r),
    ensures
        record_span(enc_record(r) + rest) == enc_record(r).len(),
{
    let b = enc_record(r) + rest;
    match r {
        Record::A { index, target } => {
            let t = enc_opt_bytes(
                match target {
                    Some(a) => Some(a@),
                    None => None,
                },
            );
            lemma_record_head(0, index, t, rest);
            if let Some(a) = target {
                assert((t + rest)[0] == 1u8);
                assert(a@.len() == 4);
            } else {
                assert((t + rest)[0] == 0u8);
            }
        },
        Record::AAAA { index, target } => {
            let t = enc_opt_bytes(
                match target {
                    Some(a) => Some(a@),
                    None => None,
                },
            );
            lemma_record_head(1, index, t, rest);
            if let Some(a) = target {
                assert((t + rest)[0] == 1u8);
                assert(a@.len() == 16);
            } else {
                assert((t + rest)[0] == 0u8);
            }
        },
        Record::CNAME { index, target } => {
            lemma_record_head(2, index, enc_opt_domain(target), rest);
            lemma_opt_domain_span(target, rest);
        },
        Record::NS { index, target } => {
            lemma_record_head(3, index, enc_opt_domain(target), rest);
            lemma_opt_domain_span(target, rest);
        },
        Record::PTR { index, target } => {
            lemma_record_head(4, index, enc_opt_domain(target), rest);
            lemma_opt_domain_span(target, rest);
        },
        Record::TXT { index, data } => {
            lemma_record_head(5, index, enc_opt_str(data), rest);
            lemma_opt_str_span(data, rest);
        },
        Record::SRV { at, priority, weight, port, target } => {
            let nums = enc_u16(priority) + enc_u16(weight) + enc_u16(port);
            lemma_le_bytes_len(priority as nat, 2);
            lemma_le_bytes_len(weight as nat, 2);
            lemma_le_bytes_len(port as nat, 2);
            lemma_record_head(6, at, nums + enc_opt_domain(target), rest);
            assert(b =~= enc_u32(6) + enc_opt_str(at) + (nums + enc_opt_domain(target)) + rest);
            assert((nums + enc_opt_domain(target) + rest).skip(6) =~= enc_opt_domain(target) + rest);
            lemma_opt_domain_span(target, rest);
        },
    }
}

/// The item encoding taken from the front: the first record, then the others.
pub proof fn lemma_record_items_front(rs: Seq<Record>)
    requires
        rs.len() > 0,
    ensures
        enc_record_items(rs) =~= enc_record(rs[0]) + enc_record_items(rs.drop_first()),
    decreases rs.len(),
{
    if rs.len() > 1 {
        lemma_record_items_front(rs.drop_last());
        assert(rs.drop_last().drop_first() =~= rs.drop_first().drop_last());
    } else {
        assert(rs.drop_first() =~= Seq::<Record>::empty());
        assert(rs.drop_last() =~= Seq::<Record>::empty());
    }
}

proof fn lemma_record_items_span(rs: Seq<Record>, rest: Seq<u8>)
    requires
        forall|i: int| 0 <= i < rs.len() ==> record_fits(#[trigger] rs[i]),
    ensures
        record_items_span(enc_record_items(rs) + rest, rs.len()) == enc_record_items(rs).len(),
    decreases rs.len(),
{
    if rs.len() > 0 {
        lemma_record_items_front(rs);
        let first = enc_record(rs[0]);
        let others = enc_record_items(rs.drop_first());
        let b = enc_record_items(rs) + rest;
        assert(b =~= first + (others + rest));
        lemma_record_span(rs[0], others + rest);
        assert(b.skip(first.len() as int) =~= others + rest);
        assert forall|i: int| 0 <= i < rs.drop_first().len() implies record_fits(
            #[trigger] rs.drop_first()[i],
        ) by {
            assert(rs.drop_first()[i] == rs[i + 1]);
        }
        lemma_record_items_span(rs.drop_first(), rest);
    } else {
        assert(enc_record_items(rs) =~= Seq::<u8>::empty());
    }
}

pub proof fn lemma_records_span(rs: Seq<Record>, rest: Seq<u8>)
    requires
        records_fit(rs),
    ensures
        records_span(enc_records(rs) + rest) == enc_records(rs).len(),
{
    let b = enc_records(rs) + rest;
    lemma_le_bytes_len(rs.len(), 8);
    assert(b =~= enc_len(rs.len()) + (enc_record_items(rs) + rest));
    lemma_read_le(rs.len(), 8, enc_record_items(rs) + rest);
    assert(b.skip(8) =~= enc_record_items(rs) + rest);
    lemma_record_items_span(rs, rest);
}

/// Appends the `n` low bytes of `x`, least significant first.
pub fn push_le(out: &mut Vec<u8>, x: u64, n: usize)
    ensures
        final(out)@ == old(out)@ + le_bytes(x as nat, n as nat),
    decreases n,
{
    if n > 0 {
        out.push((x % 256) as u8);
        push_le(out, x / 256, n - 1);
        assert(final(out)@ =~= old(out)@ + le_bytes(x as nat, n as nat));
    } else {
        assert(final(out)@ =~= old(out)@ + le_bytes(x as nat, n as nat));
    }
}

pub fn push_bytes(out: &mut Vec<u8>, b: &[u8])
    ensures
        final(out)@ == old(out)@ + b@,
{
    let mut i: usize = 0;
    while i < b.len()
        invariant
            i <= b@.len(),
            out@ == old(out)@ + b@.subrange(0, i as int),
        decreases b@.len() - i,
    {
        out.push(b[i]);
        i = i + 1;
        assert(out@ =~= old(out)@ + b@.subrange(0, i as int));
    }
    assert(b@.subrange(0, i as int) =~= b@);
}

pub fn push_str(out: &mut Vec<u8>, s: &String)
    ensures
        final(out)@ == old(out)@ + enc_str(s@),
{
    let b = s.as_str().as_bytes();
    push_le(out, b.len() as u64, 8);
    push_bytes(out, b);
    assert(final(out)@ =~= old(out)@ + enc_str(s@));
}

pub fn push_opt_str(out: &mut Vec<u8>, o: &Option<String>)
    ensures
        final(out)@ == old(out)@ + enc_opt_str(*o),
{
    match o {
        Some(s) => {
            out.push(1u8);
            push_str(out, s);
        },
        None => {
            out.push(0u8);
        },
    }
    assert(final(out)@ =~= old(out)@ + enc_opt_str(*o));
}

pub fn push_domain(out: &mut Vec<u8>, d: &Domain)
    ensures
        final(out)@ == old(out)@ + enc_domain(*d),
{
    push_str(out, &d.tld);
    push_str(out, &d.sld);
    push_opt_str(out, &d.sub);
    assert(final(out)@ =~= old(out)@ + enc_domain(*d));
}

pub fn push_opt_domain(out: &mut Vec<u8>, o: &Option<Domain>)
    ensures
        final(out)@ == old(out)@ + enc_opt_domain(*o),
{
    match o {
        Some(d) => {
            out.push(1u8);
            push_domain(out, d);
        },
        None => {
            out.push(0u8);
        },
    }
    assert(final(out)@ =~= old(out)@ + enc_opt_domain(*o));
}

#[verifier::rlimit(40)]
pub fn push_record(out: &mut Vec<u8>, r: &Record)
    ensures
        final(out)@ == old(out)@ + enc_record(*r),
{
    match r {
        Record::A { index, target } => {
            push_le(out, 0, 4);
            push_opt_str(out, index);
            match target {
                Some(a) => {
                    out.push(1u8);
                    push_bytes(out, a.as_slice());
                },
                None => out.push(0u8),
            }
        },
        Record::AAAA { index, target } => {
            push_le(out, 1, 4);
            push_opt_str(out, index);
            match target {
                Some(a) => {
                    out.push(1u8);
                    push_bytes(out, a.as_slice());
                },
                None => out.push(0u8),
            }
        },
        Record::CNAME { index, target } => {
            push_le(out, 2, 4);
            push_opt_str(out, index);
            push_opt_domain(out, target);
        },
        Record::NS { index, target } => {
            push_le(out, 3, 4);
            push_opt_str(out, index);
            push_opt_domain(out, target);
        },
        Record::PTR { index, target } => {
            push_le(out, 4, 4);
            push_opt_str(out, index);
            push_opt_domain(out, target);
        },
        Record::TXT { index, data } => {
            push_le(out, 5, 4);
            push_opt_str(out, index);
            push_opt_str(out, data);
        },
        Record::SRV { at, priority, weight, port, target } => {
            push_le(out, 6, 4);
            push_opt_str(out, at);
            push_le(out, *priority as u64, 2);
            push_le(out, *weight as u64, 2);
            push_le(out, *port as u64, 2);
            push_opt_domain(out, target);
        },
    }
    assert(final(out)@ =~= old(out)@ + enc_record(*r));
}

pub fn push_records(out: &mut Vec<u8>, rs: &Vec<Record>)
    ensures
        final(out)@ == old(out)@ + enc_records(rs@),
{
    push_le(out, rs.len() as u64, 8);
    let ghost start = out@;
    let mut i: usize = 0;
    while i < rs.len()
        invariant
            i <= rs@.len(),
            out@ == start + enc_record_items(rs@.subrange(0, i as int)),
        decreases rs@.len() - i,
    {
        push_record(out, &rs[i]);
        assert(rs@.subrange(0, i + 1).drop_last() =~= rs@.subrange(0, i as int));
        i = i + 1;
        assert(out@ =~= start + enc_record_items(rs@.subrange(0, i as int)));
    }
    assert(rs@.subrange(0, i as int) =~= rs@);
    assert(final(out)@ =~= old(out)@ + enc_records(rs@));
}

} // verus!
