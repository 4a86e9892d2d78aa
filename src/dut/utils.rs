//! Ports of the hardware module and of component templates, and the parser
//! of the port descriptor mini-language `<name> [<hi>:<lo>] [<hi>:<lo>] ...`.
use vstd::hash_map::StringHashMap;
use vstd::prelude::*;

use crate::text::{
    parse_decimal_u32, parse_u32, split_whitespace, substring, views, words, IntError,
};

verus! {

/// The hardware module: its name and its ports, by name.
pub struct DUT {
    pub name: String,
    pub ports: StringHashMap<PortProperties>,
}

impl DUT {
    /// A module without ports.
    pub fn new(name: String) -> (r: DUT)
        ensures
            r.name@ == name@,
            r.ports@ == Map::<Seq<char>, PortProperties>::empty(),
    {
        DUT { name, ports: StringHashMap::new() }
    }

    /// Declares a port; a port of the same name is replaced.
    pub fn insert_port(&mut self, name: String, properties: PortProperties)
        ensures
            final(self).name@ == old(self).name@,
            final(self).ports@ == old(self).ports@.insert(name@, properties),
    {
        self.ports.insert(name, properties);
    }

    /// The module has a port of this name.
    pub fn has_port(&self, name: &str) -> (r: bool)
        ensures
            r == self.ports@.contains_key(name@),
    {
        self.ports.contains_key(name)
    }
}

/// The electrical direction of a signal.
#[derive(Clone, Copy, Debug, Default, PartialEq, Eq, Structural)]
pub enum PortDirection {
    INPUT,
    OUTPUT,
    #[default]
    INOUT,
}

pub open spec fn complement(d: PortDirection) -> PortDirection {
    match d {
        PortDirection::INPUT => PortDirection::OUTPUT,
        PortDirection::OUTPUT => PortDirection::INPUT,
        PortDirection::INOUT => PortDirection::INOUT,
    }
}

impl PortDirection {
    /// The direction seen from the other end of the wire: input and output
    /// swap, inout stays.
    #[allow(clippy::should_implement_trait)]
    pub fn not(self) -> (r: PortDirection)
        ensures
            r == complement(self),
    {
        match self {
            PortDirection::INPUT => PortDirection::OUTPUT,
            PortDirection::OUTPUT => PortDirection::INPUT,
            PortDirection::INOUT => PortDirection::INOUT,
        }
    }
}

/// Taking the complement twice gives the direction back.
pub proof fn lemma_complement_involutive(d: PortDirection)
    ensures
        complement(complement(d)) == d,
{
}

#[derive(Clone, Debug)]
pub struct PortProperties {
    pub direction: PortDirection,
    /// Bit ranges, each as (high, low).
    pub dimensions: Vec<(u32, u32)>,
}

#[derive(Clone, Debug)]
pub struct Port {
    pub name: String,
    pub properties: PortProperties,
}

/// Why a port descriptor was refused.
#[derive(Debug)]
pub enum ParsePortError {
    /// The descriptor holds no word at all; it carries the descriptor.
    InvalidPortDescription(String),
    /// The first word is empty.
    InvalidPortNameDescription,
    /// A bit range is not of the shape `[<hi>:<lo>]`; it carries the word.
    InvalidDimDescription(String),
    /// A bound of a bit range is not a `u32`.
    InvalidDimParsing(IntError),
}

/// Why a single bit-range word was refused.
pub enum DimFault {
    Shape,
    Int(IntError),
}

/// A bit-range word `[<hi>:<lo>]` read as (high, low). The text between the
/// brackets is cut at its first colon.
pub open spec fn dim_parse(t: Seq<char>) -> Result<(u32, u32), DimFault> {
    if t.len() < 2 || t[0] != '[' || t.last() != ']' {
        Err(DimFault::Shape)
    } else {
        let inner = t.subrange(1, t.len() - 1);
        match inner.index_of_first(':') {
            None => Err(DimFault::Shape),
            Some(p) => match parse_u32(inner.take(p)) {
                Err(e) => Err(DimFault::Int(e)),
                Ok(hi) => match parse_u32(inner.skip(p + 1)) {
                    Err(e) => Err(DimFault::Int(e)),
                    Ok(lo) => Ok((hi, lo)),
                },
            },
        }
    }
}

/// The words of a port descriptor after the name are all bit ranges.
pub open spec fn dims_valid(ws: Seq<Seq<char>>) -> bool {
    forall|j: int| 1 <= j < ws.len() ==> dim_parse(#[trigger] ws[j]) is Ok
}

/// `j` is the first word after the name that is not a bit range.
pub open spec fn first_bad_dim(ws: Seq<Seq<char>>, j: int) -> bool {
    &&& 1 <= j < ws.len()
    &&& dim_parse(ws[j]) is Err
    &&& forall|m: int| 1 <= m < j ==> dim_parse(#[trigger] ws[m]) is Ok
}

/// The bit ranges that the words after the name spell.
pub open spec fn port_dims(ws: Seq<Seq<char>>) -> Seq<(u32, u32)> {
    ws.skip(1).map_values(|t: Seq<char>| dim_parse(t)->Ok_0)
}

/// A port descriptor is accepted: it has a name and only bit ranges after it.
pub open spec fn port_accepted(s: Seq<char>) -> bool {
    words(s).len() > 0 && dims_valid(words(s))
}

/// What `Port::from_str` returns on the descriptor `s`.
pub open spec fn port_parse_fits(s: Seq<char>, r: Result<Port, ParsePortError>) -> bool {
    let ws = words(s);
    match r {
        Ok(p) => {
            &&& port_accepted(s)
            &&& p.name@ == ws[0]
            &&& p.properties.direction == PortDirection::INOUT
            &&& p.properties.dimensions@ == port_dims(ws)
        },
        Err(ParsePortError::InvalidPortDescription(t)) => ws.len() == 0 && t@ == s,
        Err(ParsePortError::InvalidPortNameDescription) => false,
        Err(ParsePortError::InvalidDimDescription(t)) => exists|j: int|
            first_bad_dim(ws, j) && dim_parse(ws[j])->Err_0 is Shape && t@ == ws[j],
        Err(ParsePortError::InvalidDimParsing(e)) => exists|j: int|
            first_bad_dim(ws, j) && dim_parse(ws[j])->Err_0 == DimFault::Int(e),
    }
}

/// Reads one bit-range word.
fn parse_dim(t: &str) -> (r: Result<(u32, u32), ParsePortError>)
    ensures
        match r {
            Ok(d) => dim_parse(t@) == Ok::<(u32, u32), DimFault>(d),
            Err(ParsePortError::InvalidDimDescription(w)) => dim_parse(t@) is Err && dim_parse(
                t@,
            )->Err_0 is Shape && w@ == t@,
            Err(ParsePortError::InvalidDimParsing(e)) => dim_parse(t@) is Err && dim_parse(
                t@,
            )->Err_0 == DimFault::Int(e),
            Err(_) => false,
        },
{
    let n = t.unicode_len();
    if n < 2 || t.get_char(0) != '[' || t.get_char(n - 1) != ']' {
        return Err(ParsePortError::InvalidDimDescription(substring(t, 0, n)));
    }
    let inner = substring(t, 1, n - 1);
    let ghost iv = t@.subrange(1, t@.len() - 1);
    assert(inner@ == iv);
    let m = n - 2;
    let mut p: usize = 0;
    while p < m
        invariant
            m == inner@.len(),
            p <= m,
            forall|q: int| 0 <= q < p ==> inner@[q] != ':',
        ensures
            p <= m,
            forall|q: int| 0 <= q < p ==> inner@[q] != ':',
            p < m ==> inner@[p as int] == ':',
        decreases m - p,
    {
        if inner.as_str().get_char(p) == ':' {
            break;
        }
        p = p + 1;
    }
    proof {
        iv.index_of_first_ensures(':');
    }
    if p == m {
        assert(!iv.contains(':'));
        return Err(ParsePortError::InvalidDimDescription(substring(t, 0, n)));
    }
    assert(iv.index_of_first(':') == Some(p as int)) by {
        assert(iv.contains(':'));
        let k = iv.index_of_first(':')->Some_0;
        assert(!(k < p));
        assert(!(p < k));
    }
    let hi_text = substring(inner.as_str(), 0, p);
    let lo_text = substring(inner.as_str(), p + 1, m);
    assert(hi_text@ =~= iv.take(p as int));
    assert(lo_text@ =~= iv.skip(p + 1));
    let hi = match parse_decimal_u32(hi_text.as_str()) {
        Ok(v) => v,
        Err(e) => return Err(ParsePortError::InvalidDimParsing(e)),
    };
    let lo = match parse_decimal_u32(lo_text.as_str()) {
        Ok(v) => v,
        Err(e) => return Err(ParsePortError::InvalidDimParsing(e)),
    };
    Ok((hi, lo))
}

impl Port {
    /// Reads a port descriptor: a name, then bit ranges `[<hi>:<lo>]`, all
    /// separated by whitespace. The direction is left at inout.
    pub fn from_str(s: &str) -> (r: Result<Port, ParsePortError>)
        ensures
            port_parse_fits(s@, r),
    {
        let split = split_whitespace(s);
        let ghost ws = words(s@);
        assert(ws.len() == split@.len());
        assert(forall|j: int| 0 <= j < ws.len() ==> ws[j] == #[trigger] split@[j]@);
        if split.len() == 0 {
            let whole = substring(s, 0, s.unicode_len());
            assert(whole@ =~= s@);
            return Err(ParsePortError::InvalidPortDescription(whole));
        }
        let name = substring(split[0].as_str(), 0, split[0].as_str().unicode_len());
        let mut dimensions: Vec<(u32, u32)> = Vec::new();
        let mut i: usize = 1;
        while i < split.len()
            invariant
                ws == words(s@),
                ws == views(split@),
                1 <= i <= split@.len(),
                forall|m: int| 1 <= m < i ==> dim_parse(#[trigger] ws[m]) is Ok,
                dimensions@ == ws.subrange(1, i as int).map_values(
                    |t: Seq<char>| dim_parse(t)->Ok_0,
                ),
            decreases split@.len() - i,
        {
            assert(split@[i as int]@ == ws[i as int]);
            match parse_dim(split[i].as_str()) {
                Ok(d) => {
                    dimensions.push(d);
                    assert(ws.subrange(1, i + 1) =~= ws.subrange(1, i as int).push(ws[i as int]));
                },
                Err(e) => {
                    assert(first_bad_dim(ws, i as int));
                    return Err(e);
                },
            }
            i = i + 1;
        }
        assert(ws.subrange(1, ws.len() as int) =~= ws.skip(1));
        assert(name@ =~= ws[0]);
        assert(port_accepted(s@));
        let properties = PortProperties { direction: PortDirection::INOUT, dimensions };
        Ok(Port { name, properties })
    }
}

} // verus!
