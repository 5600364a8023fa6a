//! The colour model: an RGB triple with hex-string parsing, and a
//! registry that resolves a flat name-to-value table (hex literals or
//! aliases to other names) into concrete colours, detecting dangling and
//! circular references.

use vstd::prelude::*;

use crate::text::str_chars;

verus! {

use vstd::string::StrSliceExecFns;
use vstd::string::StringExecFns;

/// An RGB colour; equality is by field.
#[derive(Clone, Copy, Debug, Default, Eq, PartialEq, Structural)]
pub struct Colour {
    pub red: u8,
    pub green: u8,
    pub blue: u8,
}

impl Colour {
    pub fn new(red: u8, green: u8, blue: u8) -> (r: Self)
        ensures
            r == (Colour { red, green, blue }),
    {
        Colour { red, green, blue }
    }
}

/// Why a colour literal failed to parse.
#[derive(Clone, Copy, Debug, Eq, PartialEq, Structural)]
pub enum ParseColourError {
    /// The character count was neither 4 nor 7.
    InvalidLength(usize),
    /// The first character was not `#`.
    InvalidFirstChar(char),
    /// A character after `#` was not a hexadecimal digit.
    ValueParse,
}

/// The value of a hexadecimal digit, if `c` is one.
pub open spec fn hex_val(c: char) -> Option<u8> {
    match c {
        '0' => Some(0u8),
        '1' => Some(1u8),
        '2' => Some(2u8),
        '3' => Some(3u8),
        '4' => Some(4u8),
        '5' => Some(5u8),
        '6' => Some(6u8),
        '7' => Some(7u8),
        '8' => Some(8u8),
        '9' => Some(9u8),
        'a' => Some(10u8),
        'b' => Some(11u8),
        'c' => Some(12u8),
        'd' => Some(13u8),
        'e' => Some(14u8),
        'f' => Some(15u8),
        'A' => Some(10u8),
        'B' => Some(11u8),
        'C' => Some(12u8),
        'D' => Some(13u8),
        'E' => Some(14u8),
        'F' => Some(15u8),
        _ => None,
    }
}

/// The byte written by two hexadecimal digits.
pub open spec fn hex_byte(hi: u8, lo: u8) -> u8 {
    (hi * 16 + lo) as u8
}

/// What parsing a colour string yields: `#RGB` (each digit duplicated)
/// or `#RRGGBB`, case-insensitive; anything else is one of the three
/// errors, checked in this order: length, first character, digits.
pub open spec fn parse_colour_spec(s: Seq<char>) -> Result<Colour, ParseColourError> {
    if s.len() == 4 {
        if s[0] != '#' {
            Err(ParseColourError::InvalidFirstChar(s[0]))
        } else if hex_val(s[1]) is None || hex_val(s[2]) is None || hex_val(s[3]) is None {
            Err(ParseColourError::ValueParse)
        } else {
            Ok(
                Colour {
                    red: hex_byte(hex_val(s[1])->0, hex_val(s[1])->0),
                    green: hex_byte(hex_val(s[2])->0, hex_val(s[2])->0),
                    blue: hex_byte(hex_val(s[3])->0, hex_val(s[3])->0),
                },
            )
        }
    } else if s.len() == 7 {
        if s[0] != '#' {
            Err(ParseColourError::InvalidFirstChar(s[0]))
        } else if hex_val(s[1]) is None || hex_val(s[2]) is None || hex_val(s[3]) is None
            || hex_val(s[4]) is None || hex_val(s[5]) is None || hex_val(s[6]) is None {
            Err(ParseColourError::ValueParse)
        } else {
            Ok(
                Colour {
                    red: hex_byte(hex_val(s[1])->0, hex_val(s[2])->0),
                    green: hex_byte(hex_val(s[3])->0, hex_val(s[4])->0),
                    blue: hex_byte(hex_val(s[5])->0, hex_val(s[6])->0),
                },
            )
        }
    } else {
        Err(ParseColourError::InvalidLength(s.len() as usize))
    }
}

/// The value of a hexadecimal digit, if `c` is one.
fn hex_digit(c: char) -> (r: Option<u8>)
    ensures
        r == hex_val(c),
{
    match c {
        '0' => Some(0),
        '1' => Some(1),
        '2' => Some(2),
        '3' => Some(3),
        '4' => Some(4),
        '5' => Some(5),
        '6' => Some(6),
        '7' => Some(7),
        '8' => Some(8),
        '9' => Some(9),
        'a' => Some(10),
        'b' => Some(11),
        'c' => Some(12),
        'd' => Some(13),
        'e' => Some(14),
        'f' => Some(15),
        'A' => Some(10),
        'B' => Some(11),
        'C' => Some(12),
        'D' => Some(13),
        'E' => Some(14),
        'F' => Some(15),
        _ => None,
    }
}

impl Colour {
    /// Parse `#RGB` or `#RRGGBB` (character counts 4 and 7; any other
    /// count is `InvalidLength`, a wrong first character is
    /// `InvalidFirstChar`, a non-hexadecimal digit is `ValueParse`).
    pub fn from_str(source: &str) -> (r: Result<Colour, ParseColourError>)
        ensures
            r == parse_colour_spec(source@),
    {
        let cs = str_chars(source);
        if cs.len() == 4 {
            if cs[0] != '#' {
                return Err(ParseColourError::InvalidFirstChar(cs[0]));
            }
            let (Some(d1), Some(d2), Some(d3)) = (hex_digit(cs[1]), hex_digit(cs[2]), hex_digit(
                cs[3],
            )) else {
                return Err(ParseColourError::ValueParse)
            };
            Ok(Colour { red: d1 * 16 + d1, green: d2 * 16 + d2, blue: d3 * 16 + d3 })
        } else if cs.len() == 7 {
            if cs[0] != '#' {
                return Err(ParseColourError::InvalidFirstChar(cs[0]));
            }
            let (Some(d1), Some(d2), Some(d3), Some(d4), Some(d5), Some(d6)) = (
                hex_digit(cs[1]),
                hex_digit(cs[2]),
                hex_digit(cs[3]),
                hex_digit(cs[4]),
                hex_digit(cs[5]),
                hex_digit(cs[6]),
            ) else {
                return Err(ParseColourError::ValueParse)
            };
            Ok(Colour { red: d1 * 16 + d2, green: d3 * 16 + d4, blue: d5 * 16 + d6 })
        } else {
            Err(ParseColourError::InvalidLength(cs.len()))
        }
    }
}

/// The lower-case hexadecimal digit for `n` (0 to 15).
pub open spec fn hex_char_of(n: u8) -> char {
    if n == 0 {
        '0'
    } else if n == 1 {
        '1'
    } else if n == 2 {
        '2'
    } else if n == 3 {
        '3'
    } else if n == 4 {
        '4'
    } else if n == 5 {
        '5'
    } else if n == 6 {
        '6'
    } else if n == 7 {
        '7'
    } else if n == 8 {
        '8'
    } else if n == 9 {
        '9'
    } else if n == 10 {
        'a'
    } else if n == 11 {
        'b'
    } else if n == 12 {
        'c'
    } else if n == 13 {
        'd'
    } else if n == 14 {
        'e'
    } else {
        'f'
    }
}

/// `c` written as `#RRGGBB` with lower-case digits.
pub open spec fn colour_hex_spec(c: Colour) -> Seq<char> {
    seq![
        '#',
        hex_char_of(c.red / 16),
        hex_char_of(c.red % 16),
        hex_char_of(c.green / 16),
        hex_char_of(c.green % 16),
        hex_char_of(c.blue / 16),
        hex_char_of(c.blue % 16),
    ]
}

/// The lower-case hexadecimal digit for `n` (0 to 15).
fn hex_char(n: u8) -> (r: char)
    requires
        n < 16,
    ensures
        r == hex_char_of(n),
{
    match n {
        0 => '0',
        1 => '1',
        2 => '2',
        3 => '3',
        4 => '4',
        5 => '5',
        6 => '6',
        7 => '7',
        8 => '8',
        9 => '9',
        10 => 'a',
        11 => 'b',
        12 => 'c',
        13 => 'd',
        14 => 'e',
        _ => 'f',
    }
}

impl Colour {
    /// `self` written as `#RRGGBB` with lower-case digits.
    pub fn to_hex(&self) -> (r: String)
        ensures
            r@ == colour_hex_spec(*self),
    {
        let mut v: Vec<char> = Vec::new();
        v.push('#');
        v.push(hex_char(self.red / 16));
        v.push(hex_char(self.red % 16));
        v.push(hex_char(self.green / 16));
        v.push(hex_char(self.green % 16));
        v.push(hex_char(self.blue / 16));
        v.push(hex_char(self.blue % 16));
        let r = crate::text::chars_string(&v);
        proof {
            assert(v@ =~= colour_hex_spec(*self));
        }
        r
    }
}

/// Why building a colour registry failed.
#[derive(Debug, Eq, PartialEq)]
pub enum ColoursMapBuildError {
    /// A hex literal failed to parse; names the entry and the cause.
    ParseError(String, ParseColourError),
    /// An alias points at a name that no entry defines.
    InvalidReference(String, String),
    /// Alias resolution made a full pass without progress; names one
    /// arbitrarily chosen unresolved entry.
    CircularReference(String, String),
}

/// A resolved name-to-colour table, built once and immutable thereafter.
pub struct ColoursMap {
    pub data: Vec<(String, Colour)>,
}

/// A registry value is a literal when its first character is `#`;
/// otherwise it is a reference to another entry's name.
pub open spec fn is_literal(v: String) -> bool {
    v@.len() > 0 && v@[0] == '#'
}

/// The colour most recently recorded under `name`, if any.
pub open spec fn assoc_get(data: Seq<(String, Colour)>, name: Seq<char>) -> Option<Colour>
    decreases data.len(),
{
    if data.len() == 0 {
        None
    } else if data.last().0@ == name {
        Some(data.last().1)
    } else {
        assoc_get(data.drop_last(), name)
    }
}

/// Whether some entry of `es` is named `name`.
pub open spec fn contains_name<T>(es: Seq<(String, T)>, name: Seq<char>) -> bool {
    exists|i: int| 0 <= i < es.len() && es[i].0@ == name
}

/// Partition the entries from index `i` on into parsed literals and
/// pending references, failing on the first literal that does not parse.
pub open spec fn partition_spec(
    es: Seq<(String, String)>,
    i: int,
    lits: Seq<(String, Colour)>,
    refs: Seq<(String, String)>,
) -> Result<(Seq<(String, Colour)>, Seq<(String, String)>), ColoursMapBuildError>
    decreases es.len() - i,
{
    if i < 0 || i >= es.len() {
        Ok((lits, refs))
    } else if is_literal(es[i].1) {
        match parse_colour_spec(es[i].1@) {
            Ok(c) => partition_spec(es, i + 1, lits.push((es[i].0, c)), refs),
            Err(pe) => Err(ColoursMapBuildError::ParseError(es[i].0, pe)),
        }
    } else {
        partition_spec(es, i + 1, lits, refs.push(es[i]))
    }
}

/// The first reference from index `j` on whose target is neither a
/// literal's nor a reference's name: such an entry can never resolve.
pub open spec fn first_dangling(
    lits: Seq<(String, Colour)>,
    refs: Seq<(String, String)>,
    j: int,
) -> Option<(String, String)>
    decreases refs.len() - j,
{
    if j < 0 || j >= refs.len() {
        None
    } else if !contains_name(lits, refs[j].1@) && !contains_name(refs, refs[j].1@) {
        Some(refs[j])
    } else {
        first_dangling(lits, refs, j + 1)
    }
}

/// One full pass over the pending references in order: each whose target
/// is already resolved (including by an earlier entry of the same pass)
/// moves to the resolved table; the rest stay pending, in order.
pub open spec fn scan_spec(
    resolved: Seq<(String, Colour)>,
    pending: Seq<(String, String)>,
) -> (Seq<(String, Colour)>, Seq<(String, String)>)
    decreases pending.len(),
{
    if pending.len() == 0 {
        (resolved, Seq::empty())
    } else {
        match assoc_get(resolved, pending[0].1@) {
            Some(c) => scan_spec(resolved.push((pending[0].0, c)), pending.drop_first()),
            None => {
                let rest = scan_spec(resolved, pending.drop_first());
                (rest.0, seq![pending[0]] + rest.1)
            },
        }
    }
}

/// A scan never grows the pending set.
proof fn lemma_scan_le(resolved: Seq<(String, Colour)>, pending: Seq<(String, String)>)
    ensures
        scan_spec(resolved, pending).1.len() <= pending.len(),
    decreases pending.len(),
{
    if pending.len() > 0 {
        match assoc_get(resolved, pending[0].1@) {
            Some(c) => {
                lemma_scan_le(resolved.push((pending[0].0, c)), pending.drop_first());
            },
            None => {
                lemma_scan_le(resolved, pending.drop_first());
            },
        }
    }
}

/// Iterate scans to a fixed point: succeed once nothing is pending, and
/// fail with `CircularReference` (naming the first still-pending entry)
/// as soon as a full scan makes no progress.
pub open spec fn fixed_point_spec(
    resolved: Seq<(String, Colour)>,
    pending: Seq<(String, String)>,
) -> Result<Seq<(String, Colour)>, ColoursMapBuildError>
    decreases pending.len(),
    via fixed_point_spec_decreases
{
    if pending.len() == 0 {
        Ok(resolved)
    } else {
        let rest = scan_spec(resolved, pending);
        if rest.1.len() == pending.len() {
            Err(ColoursMapBuildError::CircularReference(pending[0].0, pending[0].1))
        } else {
            fixed_point_spec(rest.0, rest.1)
        }
    }
}

#[via_fn]
proof fn fixed_point_spec_decreases(
    resolved: Seq<(String, Colour)>,
    pending: Seq<(String, String)>,
) {
    lemma_scan_le(resolved, pending);
}

/// What building a registry from `es` yields: the resolved table, or the
/// first of the three failures (a bad literal, a dangling reference, a
/// cycle) that the build runs into.
pub open spec fn build_spec(es: Seq<(String, String)>) -> Result<
    Seq<(String, Colour)>,
    ColoursMapBuildError,
> {
    match partition_spec(es, 0, Seq::empty(), Seq::empty()) {
        Err(e) => Err(e),
        Ok(lr) => match first_dangling(lr.0, lr.1, 0) {
            Some(nt) => Err(ColoursMapBuildError::InvalidReference(nt.0, nt.1)),
            None => fixed_point_spec(lr.0, lr.1),
        },
    }
}

/// Whether `v` names a literal colour (first character `#`).
fn is_literal_exec(v: &String) -> (r: bool)
    ensures
        r == is_literal(*v),
{
    let s = v.as_str();
    s.unicode_len() > 0 && s.get_char(0) == '#'
}

/// The colour most recently recorded under `name`, if any.
fn assoc_get_exec(data: &Vec<(String, Colour)>, name: &String) -> (r: Option<Colour>)
    ensures
        r == assoc_get(data@, name@),
{
    let mut i: usize = data.len();
    proof {
        assert(data@.take(i as int) =~= data@);
    }
    loop
        invariant
            i <= data@.len(),
            assoc_get(data@, name@) == assoc_get(data@.take(i as int), name@),
        ensures
            i == 0 || (data@[i - 1].0@ == name@ && assoc_get(data@, name@) == Some(
                data@[i - 1].1,
            )),
            i == 0 ==> assoc_get(data@, name@) is None,
        decreases i,
    {
        if i == 0 {
            proof {
                assert(data@.take(0) =~= Seq::<(String, Colour)>::empty());
            }
            break;
        }
        if data[i - 1].0 == *name {
            proof {
                assert(data@.take(i as int).last() == data@[i - 1]);
            }
            break;
        }
        proof {
            assert(data@.take(i as int).drop_last() =~= data@.take(i - 1));
        }
        i = i - 1;
    }
    if i == 0 {
        None
    } else {
        Some(data[i - 1].1)
    }
}

/// Whether some entry of `v` is named `name`.
fn contains_name_exec<T>(v: &Vec<(String, T)>, name: &String) -> (r: bool)
    ensures
        r == contains_name(v@, name@),
{
    let mut i: usize = 0;
    while i < v.len()
        invariant
            i <= v@.len(),
            forall|k: int| 0 <= k < i ==> v@[k].0@ != name@,
        decreases v@.len() - i,
    {
        if v[i].0 == *name {
            proof {
                assert(contains_name(v@, name@)) by {
                    assert(v@[i as int].0@ == name@);
                }
            }
            return true;
        }
        i = i + 1;
    }
    false
}

impl ColoursMap {
    /// Resolve an ordered sequence of `(name, value)` entries, where a
    /// value starting with `#` is a colour literal and anything else
    /// refers to another entry's name.  Returns the resolved table, or
    /// the failure `build_spec` assigns to these entries.
    #[verifier::loop_isolation(false)]
    pub fn build(entries: Vec<(String, String)>) -> (r: Result<ColoursMap, ColoursMapBuildError>)
        ensures
            (match r {
                Ok(m) => build_spec(entries@) == Ok::<Seq<(String, Colour)>, ColoursMapBuildError>(
                    m.data@,
                ),
                Err(e) => build_spec(entries@) == Err::<
                    Seq<(String, Colour)>,
                    ColoursMapBuildError,
                >(e),
            }),
    {
        let ghost es = entries@;
        let mut lits: Vec<(String, Colour)> = Vec::new();
        let mut refs: Vec<(String, String)> = Vec::new();
        let mut i: usize = 0;
        while i < entries.len()
            invariant
                i <= es.len(),
                es == entries@,
                partition_spec(es, 0, Seq::empty(), Seq::empty()) == partition_spec(
                    es,
                    i as int,
                    lits@,
                    refs@,
                ),
            decreases es.len() - i,
        {
            let name = entries[i].0.clone();
            if is_literal_exec(&entries[i].1) {
                match Colour::from_str(entries[i].1.as_str()) {
                    Ok(c) => {
                        lits.push((name, c));
                    },
                    Err(pe) => {
                        return Err(ColoursMapBuildError::ParseError(name, pe));
                    },
                }
            } else {
                let value = entries[i].1.clone();
                refs.push((name, value));
            }
            i = i + 1;
        }
        let mut j: usize = 0;
        while j < refs.len()
            invariant
                j <= refs@.len(),
                first_dangling(lits@, refs@, 0) == first_dangling(lits@, refs@, j as int),
            decreases refs@.len() - j,
        {
            let in_lits = contains_name_exec(&lits, &refs[j].1);
            let in_refs = contains_name_exec(&refs, &refs[j].1);
            if !in_lits && !in_refs {
                return Err(
                    ColoursMapBuildError::InvalidReference(refs[j].0.clone(), refs[j].1.clone()),
                );
            }
            j = j + 1;
        }
        let ghost lits0 = lits@;
        let ghost refs0 = refs@;
        let mut resolved = lits;
        let mut pending = refs;
        while pending.len() > 0
            invariant
                fixed_point_spec(lits0, refs0) == fixed_point_spec(resolved@, pending@),
            decreases pending@.len(),
        {
            let ghost res_in = resolved@;
            let ghost pen_in = pending@;
            let mut still: Vec<(String, String)> = Vec::new();
            let mut k: usize = 0;
            proof {
                assert(pen_in.skip(0) =~= pen_in);
                assert(Seq::<(String, String)>::empty() + scan_spec(res_in, pen_in).1
                    =~= scan_spec(res_in, pen_in).1);
            }
            while k < pending.len()
                invariant
                    k <= pen_in.len(),
                    pen_in == pending@,
                    scan_spec(res_in, pen_in).0 == scan_spec(resolved@, pen_in.skip(k as int)).0,
                    scan_spec(res_in, pen_in).1 == still@ + scan_spec(
                        resolved@,
                        pen_in.skip(k as int),
                    ).1,
                decreases pen_in.len() - k,
            {
                proof {
                    assert(pen_in.skip(k as int)[0] == pen_in[k as int]);
                    assert(pen_in.skip(k as int).drop_first() =~= pen_in.skip(k + 1));
                }
                match assoc_get_exec(&resolved, &pending[k].1) {
                    Some(c) => {
                        resolved.push((pending[k].0.clone(), c));
                    },
                    None => {
                        still.push((pending[k].0.clone(), pending[k].1.clone()));
                        proof {
                            assert(still@ + scan_spec(resolved@, pen_in.skip(k + 1)).1
                                =~= still@.drop_last() + (seq![pen_in[k as int]] + scan_spec(
                                resolved@,
                                pen_in.skip(k + 1),
                            ).1));
                        }
                    },
                }
                k = k + 1;
            }
            proof {
                assert(pen_in.skip(pen_in.len() as int) =~= Seq::<(String, String)>::empty());
                assert(still@ + Seq::<(String, String)>::empty() =~= still@);
                assert(scan_spec(res_in, pen_in).0 == resolved@);
                assert(scan_spec(res_in, pen_in).1 == still@);
            }
            if still.len() == pending.len() {
                return Err(
                    ColoursMapBuildError::CircularReference(
                        pending[0].0.clone(),
                        pending[0].1.clone(),
                    ),
                );
            }
            proof {
                lemma_scan_le(res_in, pen_in);
            }
            pending = still;
        }
        proof {
            assert(fixed_point_spec(resolved@, pending@) == Ok::<
                Seq<(String, Colour)>,
                ColoursMapBuildError,
            >(resolved@));
        }
        Ok(ColoursMap { data: resolved })
    }

    /// The colour recorded under `name`, if any.
    pub fn get(&self, name: &str) -> (r: Option<Colour>)
        ensures
            r == assoc_get(self.data@, name@),
    {
        let key = String::from_str(name);
        assoc_get_exec(&self.data, &key)
    }

    /// How many entries the registry holds.
    pub fn len(&self) -> (r: usize)
        ensures
            r == self.data@.len(),
    {
        self.data.len()
    }
}

/// Writing a digit and reading it back is the identity.
proof fn lemma_hex_digit_round_trip(n: u8)
    requires
        n < 16,
    ensures
        hex_val(hex_char_of(n)) == Some(n),
{
}

/// Formatting any colour as `#RRGGBB` and parsing the result returns the
/// same colour exactly.
pub proof fn lemma_colour_hex_round_trip(c: Colour)
    ensures
        parse_colour_spec(colour_hex_spec(c)) == Ok::<Colour, ParseColourError>(c),
{
    let s = colour_hex_spec(c);
    lemma_hex_digit_round_trip(c.red / 16);
    lemma_hex_digit_round_trip(c.red % 16);
    lemma_hex_digit_round_trip(c.green / 16);
    lemma_hex_digit_round_trip(c.green % 16);
    lemma_hex_digit_round_trip(c.blue / 16);
    lemma_hex_digit_round_trip(c.blue % 16);
    assert(hex_byte(c.red / 16, c.red % 16) == c.red);
    assert(hex_byte(c.green / 16, c.green % 16) == c.green);
    assert(hex_byte(c.blue / 16, c.blue % 16) == c.blue);
}

} // verus!
