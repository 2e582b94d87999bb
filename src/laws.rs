//! Properties that relate the splitting operations of an argument to each
//! other and to UTF-8.
use vstd::prelude::*;
use crate::argument::{
    first_unit,
    eq_index,
    has_double_dash,
    long_opt_of,
    unit_len,
    unit_width,
    ShortOpt,
};
use crate::utf8_bs::{lead_width, lemma_scalar_seq, scalar_of, scalar_prefix, utf8_decode};

verus! {

/// The short options that consuming a cluster `s` one at a time gives, in
/// order, until nothing is left.
pub open spec fn cluster_units(s: Seq<u8>) -> Seq<ShortOpt>
    decreases s.len(),
{
    if s.len() == 0 {
        Seq::empty()
    } else {
        seq![first_unit(s)] + cluster_units(s.skip(unit_width(s) as int))
    }
}

/// The number of argument bytes that a run of short options stands for.
pub open spec fn units_len(u: Seq<ShortOpt>) -> nat
    decreases u.len(),
{
    if u.len() == 0 {
        0
    } else {
        unit_len(u[0]) + units_len(u.skip(1))
    }
}

/// The short option at the front of a non-empty cluster stands for exactly the
/// bytes that consuming it takes.
pub proof fn lemma_first_unit_len(s: Seq<u8>)
    requires
        s.len() > 0,
    ensures
        unit_len(first_unit(s)) == unit_width(s),
        1 <= unit_width(s) <= s.len(),
{
    if scalar_prefix(s) is Some {
        lemma_scalar_seq(s.take(lead_width(s[0]) as int));
    }
}

/// An argument that does not start with `--` is no long option.
pub proof fn lemma_long_opt_needs_double_dash(s: Seq<u8>)
    requires
        !has_double_dash(s),
    ensures
        long_opt_of(s) is None,
{
}

proof fn lemma_eq_index_of_split(name: Seq<u8>, rest: Seq<u8>)
    requires
        forall|i: int| 0 <= i < name.len() ==> name[i] != 0x3Du8,
        rest.len() == 0 || rest[0] == 0x3Du8,
    ensures
        eq_index(name + rest) == name.len(),
    decreases name.len(),
{
    if name.len() > 0 {
        assert((name + rest).skip(1) =~= name.skip(1) + rest);
        lemma_eq_index_of_split(name.skip(1), rest);
    } else {
        assert(name + rest =~= rest);
    }
}

/// `--name=value`, with no `=` in `name`, splits into `name` and `value` at
/// that `=`; `--name`, with a non-empty `name` and no `=` in it, gives `name`
/// and no value.
pub proof fn lemma_long_opt_split(name: Seq<u8>, value: Seq<u8>)
    requires
        forall|i: int| 0 <= i < name.len() ==> name[i] != 0x3Du8,
    ensures
        long_opt_of(seq![0x2Du8, 0x2Du8] + name + seq![0x3Du8] + value) == Some(
            (name, Some(value)),
        ),
        name.len() > 0 ==> long_opt_of(seq![0x2Du8, 0x2Du8] + name) == Some((name, None::<Seq<u8>>)),
{
    let dd = seq![0x2Du8, 0x2Du8];
    let s = dd + name + seq![0x3Du8] + value;
    let o = name + (seq![0x3Du8] + value);
    assert(s.skip(2) =~= o);
    lemma_eq_index_of_split(name, seq![0x3Du8] + value);
    assert(o.take(name.len() as int) =~= name);
    assert(o.skip(name.len() + 1int) =~= value);
    if name.len() > 0 {
        let t = dd + name;
        assert(t.skip(2) =~= name + Seq::<u8>::empty());
        lemma_eq_index_of_split(name, Seq::<u8>::empty());
        assert(t.skip(2) =~= name);
        assert(name.take(name.len() as int) =~= name);
    }
}

/// Consuming a cluster one short option at a time until nothing is left uses
/// up every byte of it, and the options stand for exactly those bytes.
pub proof fn lemma_cluster_consumed(s: Seq<u8>)
    ensures
        units_len(cluster_units(s)) == s.len(),
    decreases s.len(),
{
    if s.len() > 0 {
        lemma_first_unit_len(s);
        let rest = s.skip(unit_width(s) as int);
        lemma_cluster_consumed(rest);
        let u = cluster_units(s);
        assert(u.skip(1) =~= cluster_units(rest));
    }
}

/// On valid UTF-8, consuming a cluster one short option at a time gives
/// exactly the scalar values that decoding it as UTF-8 gives, in order.
pub proof fn lemma_valid_utf8_units(s: Seq<u8>)
    requires
        utf8_decode(s) is Some,
    ensures
        cluster_units(s) == utf8_decode(s).unwrap().map_values(|c: u32| ShortOpt::Codepoint(c)),
    decreases s.len(),
{
    if s.len() > 0 {
        let w = lead_width(s[0]);
        let rest = s.skip(w as int);
        lemma_valid_utf8_units(rest);
        assert(scalar_prefix(s) == Some(scalar_of(s.take(w as int))));
        assert(cluster_units(s) =~= utf8_decode(s).unwrap().map_values(
            |c: u32| ShortOpt::Codepoint(c),
        ));
    } else {
        assert(cluster_units(s) =~= utf8_decode(s).unwrap().map_values(
            |c: u32| ShortOpt::Codepoint(c),
        ));
    }
}

/// A byte that starts no well-formed UTF-8 sequence (such as `0xFF`) is taken
/// alone, as a byte, and consuming it moves on by exactly one byte.
pub proof fn lemma_invalid_leader_is_byte(s: Seq<u8>)
    requires
        s.len() > 0,
        lead_width(s[0]) == 0,
    ensures
        first_unit(s) == ShortOpt::Byte(s[0]),
        unit_width(s) == 1,
{
}

} // verus!
