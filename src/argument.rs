//! The argument view: one command-line argument as a borrowed byte slice, with
//! the splitting operations that an option parser asks of an argument.
use vstd::prelude::*;
use vstd::slice::slice_subrange;
use vstd::std_specs::cmp::PartialEqSpec;
use crate::utf8_bs::{
    decode_scalar_prefix,
    encoded_len,
    is_wide_seq,
    lead_width,
    next_code_point,
    scalar_of,
    scalar_prefix,
};

verus! {

/// One short option taken from a cluster: a decoded code point, or a single
/// byte that does not start a well-formed UTF-8 sequence.
#[derive(Clone, Copy, PartialEq, Eq, Debug, Hash, Structural)]
pub enum ShortOpt {
    /// A code point. From generalized UTF-8 it may be a lone surrogate.
    Codepoint(u32),
    /// A byte that is not part of well-formed UTF-8.
    Byte(u8),
}

impl From<char> for ShortOpt {
    fn from(codepoint: char) -> (r: Self)
        ensures
            r == ShortOpt::Codepoint(codepoint as u32),
    {
        ShortOpt::Codepoint(codepoint as u32)
    }
}

impl vstd::std_specs::convert::FromSpecImpl<char> for ShortOpt {
    open spec fn obeys_from_spec() -> bool {
        true
    }

    open spec fn from_spec(codepoint: char) -> Self {
        ShortOpt::Codepoint(codepoint as u32)
    }
}

impl From<u32> for ShortOpt {
    fn from(codepoint: u32) -> (r: Self)
        ensures
            r == ShortOpt::Codepoint(codepoint),
    {
        ShortOpt::Codepoint(codepoint)
    }
}

impl vstd::std_specs::convert::FromSpecImpl<u32> for ShortOpt {
    open spec fn obeys_from_spec() -> bool {
        true
    }

    open spec fn from_spec(codepoint: u32) -> Self {
        ShortOpt::Codepoint(codepoint)
    }
}

impl From<u8> for ShortOpt {
    fn from(byte: u8) -> (r: Self)
        ensures
            r == ShortOpt::Byte(byte),
    {
        ShortOpt::Byte(byte)
    }
}

impl vstd::std_specs::convert::FromSpecImpl<u8> for ShortOpt {
    open spec fn obeys_from_spec() -> bool {
        true
    }

    open spec fn from_spec(byte: u8) -> Self {
        ShortOpt::Byte(byte)
    }
}

/// The number of argument bytes that a short option stands for.
pub open spec fn unit_len(u: ShortOpt) -> nat {
    match u {
        ShortOpt::Codepoint(c) => encoded_len(c),
        ShortOpt::Byte(_) => 1,
    }
}

/// The short option at the front of a non-empty cluster `s`: the scalar value
/// of a well-formed UTF-8 sequence there, or else the first byte alone.
pub open spec fn first_unit(s: Seq<u8>) -> ShortOpt {
    match scalar_prefix(s) {
        Some(c) => ShortOpt::Codepoint(c),
        None => ShortOpt::Byte(s[0]),
    }
}

/// How many bytes of `s` the short option at its front takes.
pub open spec fn unit_width(s: Seq<u8>) -> nat {
    match scalar_prefix(s) {
        Some(_) => lead_width(s[0]),
        None => 1,
    }
}

/// The position of the first `=` in `s`, or `s.len()` when there is none.
pub open spec fn eq_index(s: Seq<u8>) -> nat
    decreases s.len(),
{
    if s.len() == 0 {
        0
    } else if s[0] == 0x3D {
        0
    } else {
        1 + eq_index(s.skip(1))
    }
}

/// `s` starts with the two bytes `--`.
pub open spec fn has_double_dash(s: Seq<u8>) -> bool {
    s.len() >= 2 && s[0] == 0x2D && s[1] == 0x2D
}

/// A long option `--name` or `--name=value`: the bytes after `--` must not be
/// empty; the name runs up to the first `=`, the value (possibly empty) after it.
pub open spec fn long_opt_of(s: Seq<u8>) -> Option<(Seq<u8>, Option<Seq<u8>>)> {
    if has_double_dash(s) && s.len() > 2 {
        let o = s.skip(2);
        let i = eq_index(o);
        Some(
            (
                o.take(i as int),
                if i < o.len() {
                    Some(o.skip(i + 1int))
                } else {
                    None
                },
            ),
        )
    } else {
        None
    }
}

/// The bytes after one leading `-`, when there are any, whatever they are.
pub open spec fn dash_stripped_of(s: Seq<u8>) -> Option<Seq<u8>> {
    if s.len() > 1 && s[0] == 0x2D {
        Some(s.skip(1))
    } else {
        None
    }
}

/// A short option cluster: the bytes after a single leading `-` that no
/// second `-` follows, when there are any.
pub open spec fn short_cluster_of(s: Seq<u8>) -> Option<Seq<u8>> {
    if s.len() > 1 && s[0] == 0x2D && s[1] != 0x2D {
        Some(s.skip(1))
    } else {
        None
    }
}

/// The bytes of an optional slice.
pub open spec fn opt_bytes(v: Option<&[u8]>) -> Option<Seq<u8>> {
    match v {
        Some(b) => Some(b@),
        None => None,
    }
}

/// The bytes of an optional long option split over slices.
pub open spec fn long_bytes(r: Option<(&[u8], Option<&[u8]>)>) -> Option<
    (Seq<u8>, Option<Seq<u8>>),
> {
    match r {
        Some((n, v)) => Some((n@, opt_bytes(v))),
        None => None,
    }
}

/// Relies on getargs' `Argument::parse_long_opt` for `&[u8]`: it strips a
/// leading `--`, gives `None` when nothing follows, and splits the rest at the
/// first `=` into a name and a value.
#[verifier::external_body]
fn split_long_opt<'a>(bytes: &'a [u8]) -> (r: Option<(&'a [u8], Option<&'a [u8]>)>)
    ensures
        long_bytes(r) == long_opt_of(bytes@),
{
    getargs::Argument::parse_long_opt(bytes)
}

/// Relies on getargs' `Argument::parse_short_cluster` for `&[u8]`: it strips a
/// leading `-` and gives `None` when there is none or nothing follows.
#[verifier::external_body]
fn split_short_cluster<'a>(bytes: &'a [u8]) -> (r: Option<&'a [u8]>)
    ensures
        opt_bytes(r) == dash_stripped_of(bytes@),
{
    getargs::Argument::parse_short_cluster(bytes)
}

/// A borrowed view of one command-line argument as raw bytes. It never owns
/// its bytes; slicing it gives shorter views of the same storage.
#[derive(Clone, Copy, Debug, Hash)]
pub struct OsArgument<'a> {
    bytes: &'a [u8],
}

impl<'a> View for OsArgument<'a> {
    type V = Seq<u8>;

    closed spec fn view(&self) -> Seq<u8> {
        self.bytes@
    }
}

/// The views of an optional argument.
pub open spec fn opt_view(v: Option<OsArgument>) -> Option<Seq<u8>> {
    match v {
        Some(a) => Some(a@),
        None => None,
    }
}

impl<'a> PartialEq for OsArgument<'a> {
    fn eq(&self, other: &Self) -> (r: bool)
        ensures
            r == (self@ == other@),
    {
        let n = self.bytes.len();
        if n != other.bytes.len() {
            return false;
        }
        let mut i: usize = 0;
        while i < n
            invariant
                n == self@.len() == other@.len(),
                i <= n,
                forall|k: int| 0 <= k < i ==> self@[k] == other@[k],
            decreases n - i,
        {
            if self.bytes[i] != other.bytes[i] {
                return false;
            }
            i = i + 1;
        }
        assert(self@ =~= other@);
        true
    }
}

impl<'a> vstd::std_specs::cmp::PartialEqSpecImpl for OsArgument<'a> {
    open spec fn obeys_eq_spec() -> bool {
        true
    }

    open spec fn eq_spec(&self, other: &Self) -> bool {
        self@ == other@
    }
}

impl<'a> Eq for OsArgument<'a> {

}

impl<'a> OsArgument<'a> {
    /// A view of `bytes`.
    pub fn from_bytes(bytes: &'a [u8]) -> (r: Self)
        ensures
            r@ == bytes@,
    {
        OsArgument { bytes }
    }

    /// The bytes that this view covers.
    pub fn as_bytes(&self) -> (r: &'a [u8])
        ensures
            r@ == self@,
    {
        self.bytes
    }

    /// True exactly when the argument is `--`, which ends option parsing.
    pub fn ends_opts(self) -> (r: bool)
        ensures
            r == (self@ == seq![0x2Du8, 0x2Du8]),
    {
        let b = self.bytes;
        let r = b.len() == 2 && b[0] == 0x2D && b[1] == 0x2D;
        assert(r ==> self@ =~= seq![0x2Du8, 0x2Du8]);
        r
    }

    /// Splits `--name` or `--name=value` into views of the name and the value,
    /// at the first `=`. `None` when the argument does not start with `--` or
    /// nothing follows it.
    pub fn parse_long_opt(self) -> (r: Option<(Self, Option<Self>)>)
        ensures
            r is None <==> long_opt_of(self@) is None,
            r matches Some((n, v)) ==> long_opt_of(self@) == Some((n@, opt_view(v))),
    {
        match split_long_opt(self.bytes) {
            Some((name, value)) => {
                let value = match value {
                    Some(v) => Some(OsArgument::from_bytes(v)),
                    None => None,
                };
                Some((OsArgument::from_bytes(name), value))
            },
            None => None,
        }
    }

    /// The cluster after a single leading `-`; `None` when the argument does
    /// not start with `-`, when a second `-` follows it, or when nothing
    /// follows it.
    pub fn parse_short_cluster(self) -> (r: Option<Self>)
        ensures
            opt_view(r) == short_cluster_of(self@),
    {
        match split_short_cluster(self.bytes) {
            Some(c) => {
                if c.len() > 0 && c[0] == 0x2D {
                    None
                } else {
                    Some(OsArgument::from_bytes(c))
                }
            },
            None => None,
        }
    }


    /// Takes one short option from the front of a cluster whose bytes may be
    /// any bytes: the code point of a well-formed UTF-8 sequence there, or
    /// else the first byte alone. Gives the rest of the cluster, `None` when
    /// nothing is left.
    pub fn consume_short_opt(self) -> (r: (ShortOpt, Option<Self>))
        requires
            self@.len() > 0,
        ensures
            r.0 == first_unit(self@),
            unit_len(r.0) == unit_width(self@),
            1 <= unit_width(self@) <= self@.len(),
            r.1 is None <==> unit_width(self@) == self@.len(),
            r.1 matches Some(rest) ==> rest@ == self@.skip(unit_width(self@) as int),
    {
        let bytes = self.bytes;
        let (unit, width) = match decode_scalar_prefix(bytes) {
            Some((c, w)) => (ShortOpt::Codepoint(c), w),
            None => (ShortOpt::Byte(bytes[0]), 1),
        };
        let rest = slice_subrange(bytes, width, bytes.len());
        if rest.len() == 0 {
            (unit, None)
        } else {
            (unit, Some(OsArgument::from_bytes(rest)))
        }
    }

    /// Takes one code point from the front of a cluster held as generalized
    /// UTF-8, as a platform whose arguments are always valid UTF-16-derived
    /// text stores it. Gives the rest of the cluster, `None` when nothing is
    /// left.
    pub fn consume_short_codepoint(self) -> (r: (ShortOpt, Option<Self>))
        requires
            self@.len() > 0,
            lead_width(self@[0]) <= self@.len(),
            is_wide_seq(self@.take(lead_width(self@[0]) as int)),
        ensures
            r.0 == ShortOpt::Codepoint(scalar_of(self@.take(lead_width(self@[0]) as int))),
            r.1 is None <==> lead_width(self@[0]) == self@.len(),
            r.1 matches Some(rest) ==> rest@ == self@.skip(lead_width(self@[0]) as int),
    {
        let bytes = self.bytes;
        let mut pos: usize = 0;
        assert(bytes@.subrange(0, lead_width(bytes@[0]) as int) =~= self@.take(
            lead_width(self@[0]) as int,
        ));
        let c = match next_code_point(bytes, &mut pos) {
            Some(c) => c,
            None => 0,
        };
        let rest = slice_subrange(bytes, pos, bytes.len());
        if rest.len() == 0 {
            (ShortOpt::Codepoint(c), None)
        } else {
            (ShortOpt::Codepoint(c), Some(OsArgument::from_bytes(rest)))
        }
    }

    /// The rest of a cluster as the value of the short option before it.
    pub fn consume_short_val(self) -> (r: Self)
        ensures
            r@ == self@,
    {
        self
    }
}

/// Two views over the same bytes are the same view, however each was sliced
/// out of its storage; so they compare equal and hash alike.
pub proof fn lemma_equal_bytes_equal_views(a: OsArgument, b: OsArgument)
    requires
        a@ == b@,
    ensures
        a == b,
        a.eq_spec(&b),
{
    assert(a.bytes =~= b.bytes);
}

} // verus!
