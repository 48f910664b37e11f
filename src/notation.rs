//! Dotted notation of subnets: `a.b.c.d`, `a.b.c.x`, `a.b.x.x`, `a.x.x.x`, `x.x.x.x`.
use vstd::prelude::*;
use crate::addr::{octet, address_of, address_from_octets, lemma_address_of_octets};
use crate::subnet::{Subnet, SubnetMask, SubnetParseError, aligned, lemma_aligned_octets};
use crate::text::{
    decimal, digits_value, all_digits, is_digit, push_decimal, lemma_decimal_digits,
    lemma_digits_value_grows,
};

verus! {

/// The text between the dots of `s`, in order; a text without dots is one field.
pub open spec fn split_dots(s: Seq<char>) -> Seq<Seq<char>>
    decreases s.len(),
{
    if s.len() == 0 {
        seq![Seq::empty()]
    } else {
        let f = split_dots(s.drop_last());
        if s.last() == '.' {
            f.push(Seq::empty())
        } else {
            f.update(f.len() - 1, f.last().push(s.last()))
        }
    }
}

/// Four fields joined by dots.
pub open spec fn join4(f0: Seq<char>, f1: Seq<char>, f2: Seq<char>, f3: Seq<char>) -> Seq<char> {
    f0 + seq!['.'] + f1 + seq!['.'] + f2 + seq!['.'] + f3
}

/// What one field denotes: `Some(None)` for the wildcard `x`, `Some(Some(v))` for a
/// non-empty run of digits of value `v` at most 255, `None` for anything else.
pub open spec fn block_spec(f: Seq<char>) -> Option<Option<u8>> {
    if f == seq!['x'] {
        Some(None)
    } else if f.len() > 0 && all_digits(f) && digits_value(f) <= 255 {
        Some(Some(digits_value(f) as u8))
    } else {
        None
    }
}

/// The subnet that four fields denote: concrete octets first, wildcards only trailing.
pub open spec fn subnet_of_blocks(b0: Option<u8>, b1: Option<u8>, b2: Option<u8>, b3: Option<u8>) -> Option<(u32, SubnetMask)> {
    match (b0, b1, b2, b3) {
        (None, None, None, None) => Some((0u32, SubnetMask::Slash0)),
        (Some(a), None, None, None) => Some((address_of(a, 0, 0, 0), SubnetMask::Slash8)),
        (Some(a), Some(b), None, None) => Some((address_of(a, b, 0, 0), SubnetMask::Slash16)),
        (Some(a), Some(b), Some(c), None) => Some((address_of(a, b, c, 0), SubnetMask::Slash24)),
        (Some(a), Some(b), Some(c), Some(d)) => Some((address_of(a, b, c, d), SubnetMask::Slash32)),
        _ => None,
    }
}

/// The base and mask that a text denotes, if it is well formed.
pub open spec fn parse_spec(s: Seq<char>) -> Option<(u32, SubnetMask)> {
    let f = split_dots(s);
    if f.len() == 4 && block_spec(f[0]) is Some && block_spec(f[1]) is Some
        && block_spec(f[2]) is Some && block_spec(f[3]) is Some {
        subnet_of_blocks(block_spec(f[0])->0, block_spec(f[1])->0, block_spec(f[2])->0, block_spec(f[3])->0)
    } else {
        None
    }
}

/// Field `i` of the notation: the octet in decimal where it is concrete, else `x`.
pub open spec fn field_text(base: u32, mask: SubnetMask, i: int) -> Seq<char> {
    if i < mask.prefix_octets() {
        decimal(octet(base, i) as nat)
    } else {
        seq!['x']
    }
}

/// The notation of a subnet.
pub open spec fn format_spec(base: u32, mask: SubnetMask) -> Seq<char> {
    join4(field_text(base, mask, 0), field_text(base, mask, 1), field_text(base, mask, 2), field_text(base, mask, 3))
}

proof fn lemma_split_len(s: Seq<char>)
    ensures
        split_dots(s).len() >= 1,
    decreases s.len(),
{
    if s.len() > 0 {
        lemma_split_len(s.drop_last());
    }
}

proof fn lemma_split_no_dot(s: Seq<char>)
    requires
        !s.contains('.'),
    ensures
        split_dots(s) == seq![s],
    decreases s.len(),
{
    if s.len() > 0 {
        let p = s.drop_last();
        if p.contains('.') {
            let i = choose|i: int| 0 <= i < p.len() && p[i] == '.';
            assert(s[i] == '.');
        }
        lemma_split_no_dot(p);
        assert(s.last() != '.') by {
            assert(s[s.len() - 1] == s.last());
        }
        assert(p.push(s.last()) =~= s);
        assert(split_dots(s) =~= seq![s]);
    } else {
        assert(s =~= Seq::<char>::empty());
    }
}

proof fn lemma_split_dot_concat(p: Seq<char>, q: Seq<char>)
    ensures
        split_dots(p + seq!['.'] + q) == split_dots(p) + split_dots(q),
    decreases q.len(),
{
    let pd = p + seq!['.'];
    lemma_split_len(p);
    if q.len() == 0 {
        assert(pd + q =~= pd);
        assert(pd.drop_last() =~= p);
        assert(split_dots(q) =~= seq![Seq::<char>::empty()]);
        assert(split_dots(pd) =~= split_dots(p) + split_dots(q));
    } else {
        let q0 = q.drop_last();
        lemma_split_dot_concat(p, q0);
        lemma_split_len(q0);
        assert((pd + q).drop_last() =~= pd + q0);
        assert((pd + q).last() == q.last());
        assert(split_dots(pd + q) =~= split_dots(p) + split_dots(q));
    }
}

proof fn lemma_split_join4(f0: Seq<char>, f1: Seq<char>, f2: Seq<char>, f3: Seq<char>)
    requires
        !f0.contains('.'),
        !f1.contains('.'),
        !f2.contains('.'),
        !f3.contains('.'),
    ensures
        split_dots(join4(f0, f1, f2, f3)) == seq![f0, f1, f2, f3],
{
    lemma_split_no_dot(f0);
    lemma_split_no_dot(f1);
    lemma_split_no_dot(f2);
    lemma_split_no_dot(f3);
    lemma_split_dot_concat(f0, f1);
    lemma_split_dot_concat(f0 + seq!['.'] + f1, f2);
    lemma_split_dot_concat(f0 + seq!['.'] + f1 + seq!['.'] + f2, f3);
    assert(split_dots(join4(f0, f1, f2, f3)) =~= seq![f0, f1, f2, f3]);
}

proof fn lemma_field_text(base: u32, mask: SubnetMask, i: int)
    ensures
        !field_text(base, mask, i).contains('.'),
        block_spec(field_text(base, mask, i)) == if i < mask.prefix_octets() {
            Some(Some(octet(base, i)))
        } else {
            Some(None::<u8>)
        },
{
    if i < mask.prefix_octets() {
        lemma_decimal_digits(octet(base, i) as nat);
    } else {
        let x = seq!['x'];
        if x.contains('.') {
            let j = choose|j: int| 0 <= j < x.len() && x[j] == '.';
            assert(x[j] == 'x');
        }
    }
}

/// Formatting a subnet and reading the text back gives the same subnet.
pub proof fn lemma_format_then_parse(base: u32, mask: SubnetMask)
    requires
        aligned(base, mask),
    ensures
        parse_spec(format_spec(base, mask)) == Some((base, mask)),
{
    lemma_field_text(base, mask, 0);
    lemma_field_text(base, mask, 1);
    lemma_field_text(base, mask, 2);
    lemma_field_text(base, mask, 3);
    lemma_split_join4(field_text(base, mask, 0), field_text(base, mask, 1), field_text(base, mask, 2),
        field_text(base, mask, 3));
    lemma_aligned_octets(base, mask);
    lemma_address_of_octets(base);
    assert(octet(base, 3) == 0 ==> octet(base, 2) == 0 || mask == SubnetMask::Slash24
        || mask == SubnetMask::Slash32);
}

/// Reading `a.b.x.x` and formatting the subnet it denotes gives `a.b.x.x` back.
pub proof fn lemma_parse_then_format_slash16(a: u8, b: u8)
    ensures
        parse_spec(join4(decimal(a as nat), decimal(b as nat), seq!['x'], seq!['x']))
            == Some((address_of(a, b, 0, 0), SubnetMask::Slash16)),
        format_spec(address_of(a, b, 0, 0), SubnetMask::Slash16)
            == join4(decimal(a as nat), decimal(b as nat), seq!['x'], seq!['x']),
{
    let base = address_of(a, b, 0, 0);
    crate::addr::lemma_octets_of_address(a, b, 0, 0);
    lemma_address_of_octets(base);
    assert(aligned(base, SubnetMask::Slash16)) by {
        crate::addr::lemma_address_of_bounds(a, b, 0, 0);
        vstd::arithmetic::div_mod::lemma_fundamental_div_mod_converse(
            base as int, 0x1_0000, a * 256int + b, 0);
    }
    lemma_format_then_parse(base, SubnetMask::Slash16);
}

proof fn lemma_digits_prefix(s: Seq<char>, k: int)
    requires
        all_digits(s),
        0 <= k <= s.len(),
    ensures
        digits_value(s) >= digits_value(s.take(k)),
    decreases s.len(),
{
    if k < s.len() {
        let p = s.drop_last();
        assert(all_digits(p)) by {
            assert forall|i: int| 0 <= i < p.len() implies is_digit(#[trigger] p[i]) by {
                assert(p[i] == s[i]);
            }
        }
        lemma_digits_prefix(p, k);
        assert(p.take(k) =~= s.take(k));
        assert(is_digit(s[s.len() - 1]));
        lemma_digits_value_grows(p, s.last());
        assert(p.push(s.last()) =~= s);
    } else {
        assert(s.take(k) =~= s);
    }
}

proof fn lemma_blocks_aligned(b0: Option<u8>, b1: Option<u8>, b2: Option<u8>, b3: Option<u8>)
    requires
        subnet_of_blocks(b0, b1, b2, b3) is Some,
    ensures
        subnet_of_blocks(b0, b1, b2, b3) matches Some((base, mask)) && aligned(base, mask),
{
    let a = if b0 is Some { b0->0 } else { 0u8 };
    let b = if b1 is Some { b1->0 } else { 0u8 };
    let c = if b2 is Some { b2->0 } else { 0u8 };
    crate::addr::lemma_address_of_bounds(a, b, c, 0);
    crate::addr::lemma_address_of_bounds(a, 0, 0, 0);
    crate::addr::lemma_address_of_bounds(a, b, 0, 0);
    vstd::arithmetic::div_mod::lemma_fundamental_div_mod_converse(
        address_of(a, 0, 0, 0) as int, 0x100_0000, a as int, 0);
    vstd::arithmetic::div_mod::lemma_fundamental_div_mod_converse(
        address_of(a, b, 0, 0) as int, 0x1_0000, a * 256int + b, 0);
    vstd::arithmetic::div_mod::lemma_fundamental_div_mod_converse(
        address_of(a, b, c, 0) as int, 0x100, a * 0x1_0000int + b * 256int + c, 0);
}

/// Reads one field of the notation.
fn parse_block(f: &Vec<char>) -> (r: Option<Option<u8>>)
    ensures
        r == block_spec(f@),
{
    let n = f.len();
    if n == 1 && f[0] == 'x' {
        assert(f@ =~= seq!['x']);
        return Some(None);
    }
    if n == 0 {
        return None;
    }
    assert(f@ != seq!['x']) by {
        if f@ == seq!['x'] {
            assert(f@[0] == 'x');
        }
    }
    let mut v: u32 = 0;
    let mut j: usize = 0;
    while j < n
        invariant
            n == f@.len(),
            f@ != seq!['x'],
            0 <= j <= n,
            all_digits(f@.take(j as int)),
            v as nat == digits_value(f@.take(j as int)),
            v <= 255,
        decreases n - j,
    {
        let c = f[j];
        assert(f@.take(j as int + 1) =~= f@.take(j as int).push(c));
        if !(c >= '0' && c <= '9') {
            assert(!is_digit(f@[j as int]));
            return None;
        }
        let d = (c as u32) - ('0' as u32);
        proof {
            lemma_digits_value_grows(f@.take(j as int), c);
            assert(all_digits(f@.take(j as int + 1))) by {
                assert forall|i: int| 0 <= i < j + 1 implies is_digit(#[trigger] f@.take(j as int + 1)[i]) by {
                    if i < j {
                        assert(f@.take(j as int + 1)[i] == f@.take(j as int)[i]);
                    }
                }
            }
        }
        let nv = v * 10 + d;
        if nv > 255 {
            proof {
                if all_digits(f@) {
                    lemma_digits_prefix(f@, j as int + 1);
                }
            }
            return None;
        }
        v = nv;
        j = j + 1;
    }
    assert(f@.take(n as int) =~= f@);
    Some(Some(v as u8))
}

impl Subnet {
    /// Reads the dotted notation: four fields, concrete octets first and `x`
    /// wildcards trailing; the mask follows from the count of concrete octets.
    pub fn from_str(s: &str) -> (r: Result<Subnet, SubnetParseError>)
        ensures
            match parse_spec(s@) {
                Some((b, m)) => r matches Ok(t) && t.base_spec() == b && t.mask_spec() == m,
                None => r == Err::<Subnet, SubnetParseError>(SubnetParseError::MalformedSubnet),
            },
    {
        let n = s.unicode_len();
        let mut done: Vec<Vec<char>> = Vec::new();
        let mut cur: Vec<char> = Vec::new();
        let mut i: usize = 0;
        assert(s@.take(0) =~= Seq::<char>::empty());
        while i < n
            invariant
                n == s@.len(),
                0 <= i <= n,
                split_dots(s@.take(i as int)).len() == done@.len() + 1,
                forall|j: int| 0 <= j < done@.len() ==> split_dots(s@.take(i as int))[j] == #[trigger] done@[j]@,
                split_dots(s@.take(i as int)).last() == cur@,
            decreases n - i,
        {
            let c = s.get_char(i);
            let ghost before = split_dots(s@.take(i as int));
            assert(s@.take(i as int + 1).drop_last() =~= s@.take(i as int));
            assert(s@.take(i as int + 1).last() == c);
            if c == '.' {
                done.push(cur);
                cur = Vec::new();
            } else {
                cur.push(c);
            }
            i = i + 1;
            proof {
                let after = split_dots(s@.take(i as int));
                assert forall|j: int| 0 <= j < done@.len() implies after[j] == #[trigger] done@[j]@ by {
                    if j < done@.len() - 1 || c != '.' {
                        assert(before[j] == done@[j]@);
                    }
                }
            }
        }
        assert(s@.take(n as int) =~= s@);
        if done.len() != 3 {
            return Err(SubnetParseError::MalformedSubnet);
        }
        let ghost f = split_dots(s@);
        let b0 = parse_block(&done[0]);
        let b1 = parse_block(&done[1]);
        let b2 = parse_block(&done[2]);
        let b3 = parse_block(&cur);
        assert(f[3] == cur@);
        let (b0, b1, b2, b3) = match (b0, b1, b2, b3) {
            (Some(b0), Some(b1), Some(b2), Some(b3)) => (b0, b1, b2, b3),
            _ => return Err(SubnetParseError::MalformedSubnet),
        };
        let (base, mask) = match (b0, b1, b2, b3) {
            (None, None, None, None) => (0u32, SubnetMask::Slash0),
            (Some(a), None, None, None) => (address_from_octets(a, 0, 0, 0), SubnetMask::Slash8),
            (Some(a), Some(b), None, None) => (address_from_octets(a, b, 0, 0), SubnetMask::Slash16),
            (Some(a), Some(b), Some(c), None) => (address_from_octets(a, b, c, 0), SubnetMask::Slash24),
            (Some(a), Some(b), Some(c), Some(d)) => (address_from_octets(a, b, c, d), SubnetMask::Slash32),
            _ => return Err(SubnetParseError::MalformedSubnet),
        };
        proof {
            lemma_blocks_aligned(b0, b1, b2, b3);
        }
        match Subnet::new(base, mask) {
            Ok(t) => Ok(t),
            Err(_) => Err(SubnetParseError::MalformedSubnet),
        }
    }

    fn push_field(&self, out: &mut String, i: usize)
        requires
            i < 4,
        ensures
            final(out)@ == old(out)@ + field_text(self.base_spec(), self.mask_spec(), i as int),
    {
        let base = self.base_address();
        let k = self.mask().prefix_len() / 8;
        if (i as u8) < k {
            let o = crate::addr::octet_at(base, i);
            push_decimal(out, o as u64);
        } else {
            proof { reveal_strlit("x"); }
            out.append("x");
        }
    }

    /// The dotted notation: concrete octets in decimal, then an `x` for each free octet.
    pub fn to_string(&self) -> (r: String)
        ensures
            r@ == format_spec(self.base_spec(), self.mask_spec()),
    {
        let mut out = String::new();
        proof { reveal_strlit("."); }
        self.push_field(&mut out, 0);
        out.append(".");
        self.push_field(&mut out, 1);
        out.append(".");
        self.push_field(&mut out, 2);
        out.append(".");
        self.push_field(&mut out, 3);
        assert(out@ =~= format_spec(self.base_spec(), self.mask_spec()));
        out
    }
}

} // verus!
