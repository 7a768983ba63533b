//! The metadata section, `[Song]`: `name = value` properties, with the
//! `Resolution` property held apart as a number.
use vstd::prelude::*;
use vstd::string::StringExecFns;

use crate::chart::ParseError;
use crate::text::{
    chars_of, p_char, p_tag, push_chars, push_text, push_u32, scan, single, skip_ws,
    span, tag, text_of, text_to_u32, text_u32, dec, CharClass,
};

verus! {

/// One `name = value` line of the metadata section.
#[derive(Debug, PartialEq, Eq)]
pub struct Property {
    name: String,
    value: String,
}

/// What a property holds.
pub struct PropertyView {
    pub name: Seq<char>,
    pub value: Seq<char>,
}

/// The metadata section: the resolution (ticks per beat) and the other
/// properties in the order of the text.
#[derive(Debug, PartialEq, Eq)]
pub struct Song {
    resolution: u32,
    properties: Vec<Property>,
}

/// What the metadata section holds.
pub struct SongView {
    pub resolution: u32,
    pub properties: Seq<PropertyView>,
}

impl View for Property {
    type V = PropertyView;

    closed spec fn view(&self) -> PropertyView {
        PropertyView { name: self.name@, value: self.value@ }
    }
}

impl View for Song {
    type V = SongView;

    closed spec fn view(&self) -> SongView {
        SongView {
            resolution: self.resolution,
            properties: self.properties@.map_values(|p: Property| p@),
        }
    }
}

/// The name of the property that gives the resolution.
pub open spec fn resolution_name() -> Seq<char> {
    "Resolution"@
}

/// The value of the first property named `Resolution`, if any.
pub open spec fn resolution_value(ps: Seq<PropertyView>) -> Option<Seq<char>>
    decreases ps.len(),
{
    if ps.len() == 0 {
        None
    } else if ps[0].name == resolution_name() {
        Some(ps[0].value)
    } else {
        resolution_value(ps.drop_first())
    }
}

/// The properties not named `Resolution`, in order.
pub open spec fn other_properties(ps: Seq<PropertyView>) -> Seq<PropertyView> {
    ps.filter(|p: PropertyView| p.name != resolution_name())
}

/// The metadata section that a list of properties makes: the first
/// `Resolution` property must exist and read as an unsigned 32-bit number;
/// every `Resolution` property leaves the list.
pub open spec fn song_of(ps: Seq<PropertyView>) -> Result<SongView, ParseError> {
    match resolution_value(ps) {
        None => Err(ParseError::MissingResolution),
        Some(v) => match text_u32(v) {
            None => Err(ParseError::InvalidResolution),
            Some(r) => Ok(SongView { resolution: r, properties: other_properties(ps) }),
        },
    }
}

/// One property at `i`: a name of letters and digits, ` = `, and the rest of
/// the line. A carriage return ends the value only before a line feed.
pub open spec fn p_property(s: Seq<char>, i: int) -> Result<(PropertyView, int), int> {
    let j = span(s, i, CharClass::AlphaNum);
    if j == i {
        Err(i)
    } else {
        match p_tag(s, j, " = "@) {
            Err(e) => Err(e),
            Ok(k) => {
                let m = span(s, k, CharClass::LineText);
                if m < s.len() && s[m] == '\r' && !(m + 1 < s.len() && s[m + 1] == '\n') {
                    Err(k)
                } else {
                    Ok((PropertyView { name: s.subrange(i, j), value: s.subrange(k, m) }, m))
                }
            },
        }
    }
}

/// The properties that follow the first one, each followed by optional
/// whitespace, for as long as one can be read.
pub open spec fn p_properties_more(s: Seq<char>, i: int) -> (Seq<PropertyView>, int)
    decreases s.len() - i,
{
    match p_property(s, i) {
        Ok((p, k)) => {
            let k2 = skip_ws(s, k);
            if i < k2 <= s.len() {
                let rest = p_properties_more(s, k2);
                (seq![p] + rest.0, rest.1)
            } else {
                (seq![], i)
            }
        },
        Err(_) => (seq![], i),
    }
}

/// The lines of the metadata section at `i`: its header, then a braced
/// block of one or more properties.
pub open spec fn p_song(s: Seq<char>, i: int) -> Result<(Seq<PropertyView>, int), int> {
    match p_tag(s, skip_ws(s, i), "[Song]"@) {
        Err(e) => Err(e),
        Ok(j1) => match p_char(s, skip_ws(s, j1), '{') {
            Err(e) => Err(e),
            Ok(j2) => match p_property(s, skip_ws(s, j2)) {
                Err(e) => Err(e),
                Ok((first, j3)) => {
                    let more = p_properties_more(s, skip_ws(s, j3));
                    match p_char(s, more.1, '}') {
                        Err(e) => Err(e),
                        Ok(j4) => Ok((seq![first] + more.0, j4)),
                    }
                },
            },
        },
    }
}

/// The metadata section at `i`, lines and resolution both.
pub open spec fn p_song_section(s: Seq<char>, i: int) -> Result<(SongView, int), ParseError> {
    match p_song(s, i) {
        Err(p) => Err(ParseError::Syntax { position: p as usize }),
        Ok((ps, j)) => match song_of(ps) {
            Err(e) => Err(e),
            Ok(song) => Ok((song, j)),
        },
    }
}

/// The text of one property: a line indented by two spaces.
pub open spec fn property_text(p: PropertyView) -> Seq<char> {
    "  "@ + p.name + " = "@ + p.value + "\n"@
}

pub open spec fn property_lines(ps: Seq<PropertyView>) -> Seq<char>
    decreases ps.len(),
{
    if ps.len() == 0 {
        seq![]
    } else {
        property_lines(ps.drop_last()) + property_text(ps.last())
    }
}

/// The text of the whole metadata section: the resolution first, then the
/// other properties.
pub open spec fn song_text(song: SongView) -> Seq<char> {
    "[Song]\n{\n"@ + "  Resolution = "@ + dec(song.resolution as nat) + "\n"@ + property_lines(
        song.properties,
    ) + "}\n"@
}

/// Reads one property at `i`.
pub fn parse_property(s: &Vec<char>, i: usize) -> (r: Result<(Property, usize), usize>)
    requires
        i <= s@.len(),
    ensures
        match r {
            Ok((p, j)) => p_property(s@, i as int) == Ok::<(PropertyView, int), int>(
                (p@, j as int),
            ) && j <= s@.len(),
            Err(x) => p_property(s@, i as int) == Err::<(PropertyView, int), int>(x as int),
        },
{
    let j = scan(s, i, CharClass::AlphaNum);
    if j == i {
        return Err(i);
    }
    let k = match tag(s, j, " = ") {
        Ok(x) => x,
        Err(e) => return Err(e),
    };
    let m = scan(s, k, CharClass::LineText);
    if m < s.len() && s[m] == '\r' && !(m + 1 < s.len() && s[m + 1] == '\n') {
        return Err(k);
    }
    let p = Property { name: text_of(s, i, j), value: text_of(s, k, m) };
    Ok((p, m))
}

/// Reads the lines of the metadata section at `i`.
pub fn parse_song_lines(s: &Vec<char>, i: usize) -> (r: Result<(Vec<Property>, usize), usize>)
    requires
        i <= s@.len(),
    ensures
        match r {
            Ok((ps, j)) => p_song(s@, i as int) == Ok::<(Seq<PropertyView>, int), int>(
                (ps@.map_values(|p: Property| p@), j as int),
            ) && j <= s@.len(),
            Err(x) => p_song(s@, i as int) == Err::<(Seq<PropertyView>, int), int>(x as int),
        },
{
    let j1 = match tag(s, scan(s, i, CharClass::Space), "[Song]") {
        Ok(x) => x,
        Err(e) => return Err(e),
    };
    let j2 = match single(s, scan(s, j1, CharClass::Space), '{') {
        Ok(x) => x,
        Err(e) => return Err(e),
    };
    let (first, j3) = match parse_property(s, scan(s, j2, CharClass::Space)) {
        Ok(x) => x,
        Err(e) => return Err(e),
    };
    let ghost fv = first@;
    let start = scan(s, j3, CharClass::Space);
    let mut props: Vec<Property> = Vec::new();
    props.push(first);
    let mut cur = start;
    loop
        invariant
            start <= cur <= s@.len(),
            props@.len() >= 1,
            props@.map_values(|p: Property| p@).drop_first() + p_properties_more(
                s@,
                cur as int,
            ).0 == p_properties_more(s@, start as int).0,
            props@[0]@ == fv,
            p_properties_more(s@, cur as int).1 == p_properties_more(s@, start as int).1,
        ensures
            props@.map_values(|p: Property| p@) == seq![fv] + p_properties_more(
                s@,
                start as int,
            ).0,
            cur == p_properties_more(s@, start as int).1,
            cur <= s@.len(),
        decreases s@.len() - cur,
    {
        match parse_property(s, cur) {
            Ok((p, k)) => {
                let k2 = scan(s, k, CharClass::Space);
                if k2 <= cur {
                    assert(props@.map_values(|p: Property| p@) =~= seq![fv] + p_properties_more(
                        s@,
                        start as int,
                    ).0);
                    break;
                }
                let ghost before = props@.map_values(|p: Property| p@);
                let ghost pv = p@;
                props.push(p);
                assert(props@.map_values(|p: Property| p@).drop_first() =~= before.drop_first().push(pv));
                assert(p_properties_more(s@, cur as int).0 =~= seq![pv] + p_properties_more(
                    s@,
                    k2 as int,
                ).0);
                assert(props@.map_values(|p: Property| p@).drop_first() + p_properties_more(
                    s@,
                    k2 as int,
                ).0 =~= before.drop_first() + p_properties_more(s@, cur as int).0);
                cur = k2;
            },
            Err(_) => {
                assert(props@.map_values(|p: Property| p@) =~= seq![fv] + p_properties_more(
                    s@,
                    start as int,
                ).0);
                break;
            },
        }
    }
    let j4 = match single(s, cur, '}') {
        Ok(x) => x,
        Err(e) => return Err(e),
    };
    Ok((props, j4))
}

/// Reads the metadata section at `i`, lines and resolution both.
pub fn parse_song(s: &Vec<char>, i: usize) -> (r: Result<(Song, usize), ParseError>)
    requires
        i <= s@.len(),
    ensures
        match r {
            Ok((song, j)) => p_song_section(s@, i as int) == Ok::<(SongView, int), ParseError>(
                (song@, j as int),
            ) && j <= s@.len(),
            Err(e) => p_song_section(s@, i as int) == Err::<(SongView, int), ParseError>(e),
        },
{
    match parse_song_lines(s, i) {
        Err(p) => Err(ParseError::Syntax { position: p }),
        Ok((ps, j)) => match Song::from_properties(ps) {
            Err(e) => Err(e),
            Ok(song) => Ok((song, j)),
        },
    }
}

/// Appends the line of one property.
pub fn write_property(p: &Property, out: &mut String)
    ensures
        final(out)@ == old(out)@ + property_text(p@),
{
    push_text(out, "  ");
    push_chars(out, &p.name);
    push_text(out, " = ");
    push_chars(out, &p.value);
    push_text(out, "\n");
    assert(final(out)@ =~= old(out)@ + property_text(p@));
}

impl Property {
    pub fn new(name: String, value: String) -> (r: Property)
        ensures
            r@ == (PropertyView { name: name@, value: value@ }),
    {
        Property { name, value }
    }

    pub fn name(&self) -> (r: &String)
        ensures
            r@ == self@.name,
    {
        &self.name
    }

    pub fn value(&self) -> (r: &String)
        ensures
            r@ == self@.value,
    {
        &self.value
    }
}

impl Song {
    pub fn new(resolution: u32, properties: Vec<Property>) -> (r: Song)
        ensures
            r@ == (SongView {
                resolution,
                properties: properties@.map_values(|p: Property| p@),
            }),
    {
        Song { resolution, properties }
    }

    pub fn resolution(&self) -> (r: u32)
        ensures
            r == self@.resolution,
    {
        self.resolution
    }

    pub fn properties(&self) -> (r: &Vec<Property>)
        ensures
            r@.map_values(|p: Property| p@) == self@.properties,
    {
        &self.properties
    }

    /// Builds the metadata section from its lines: takes the resolution
    /// from the first `Resolution` property and drops every `Resolution`
    /// property from the list.
    pub fn from_properties(ps: Vec<Property>) -> (r: Result<Song, ParseError>)
        ensures
            match r {
                Ok(song) => song_of(ps@.map_values(|p: Property| p@)) == Ok::<
                    SongView,
                    ParseError,
                >(song@),
                Err(e) => song_of(ps@.map_values(|p: Property| p@)) == Err::<SongView, ParseError>(
                    e,
                ),
            },
    {
        let ghost pv = ps@.map_values(|p: Property| p@);
        let key = String::from_str("Resolution");
        let n = ps.len();
        let mut k: usize = 0;
        let mut found: Option<usize> = None;
        assert(pv.skip(0) =~= pv);
        while k < n
            invariant_except_break
                found is None,
            invariant
                k <= n,
                n == ps@.len(),
                pv == ps@.map_values(|p: Property| p@),
                key@ == resolution_name(),
                resolution_value(pv) == resolution_value(pv.skip(k as int)),
            ensures
                match found {
                    Some(x) => x < n && resolution_value(pv) == Some(pv[x as int].value),
                    None => resolution_value(pv) == None::<Seq<char>>,
                },
            decreases n - k,
        {
            assert(pv.skip(k as int)[0] == pv[k as int]);
            if ps[k].name == key {
                found = Some(k);
                break;
            }
            assert(pv.skip(k as int).drop_first() =~= pv.skip(k + 1));
            k = k + 1;
        }
        let x = match found {
            None => return Err(ParseError::MissingResolution),
            Some(x) => x,
        };
        let digits = chars_of(ps[x].value.as_str());
        let resolution = match text_to_u32(&digits) {
            None => return Err(ParseError::InvalidResolution),
            Some(v) => v,
        };
        let mut kept: Vec<Property> = Vec::new();
        let mut q: usize = 0;
        while q < n
            invariant
                q <= n,
                n == ps@.len(),
                pv == ps@.map_values(|p: Property| p@),
                key@ == resolution_name(),
                kept@.map_values(|p: Property| p@) == other_properties(pv.take(q as int)),
            decreases n - q,
        {
            proof {
                assert(pv.take(q + 1).drop_last() =~= pv.take(q as int));
                assert(pv.take(q + 1).last() == pv[q as int]);
                reveal(Seq::filter);
            }
            if ps[q].name != key {
                let p = Property { name: ps[q].name.clone(), value: ps[q].value.clone() };
                let ghost before = kept@.map_values(|p: Property| p@);
                kept.push(p);
                assert(kept@.map_values(|p: Property| p@) =~= before.push(pv[q as int]));
            }
            q = q + 1;
        }
        assert(pv.take(n as int) =~= pv);
        Ok(Song { resolution, properties: kept })
    }

    /// Multiplies the resolution by `factor`.
    pub fn multiply(&mut self, factor: u32)
        requires
            old(self)@.resolution * factor <= u32::MAX,
        ensures
            final(self)@ == (SongView {
                resolution: (old(self)@.resolution * factor) as u32,
                properties: old(self)@.properties,
            }),
    {
        self.resolution = self.resolution * factor;
    }

    /// Appends the text of the section.
    pub fn write_to(&self, out: &mut String)
        ensures
            final(out)@ == old(out)@ + song_text(self@),
    {
        push_text(out, "[Song]\n{\n");
        push_text(out, "  Resolution = ");
        push_u32(out, self.resolution);
        push_text(out, "\n");
        let ghost start = out@;
        let ghost ps = self@.properties;
        let mut k: usize = 0;
        while k < self.properties.len()
            invariant
                k <= self.properties@.len(),
                ps == self.properties@.map_values(|p: Property| p@),
                out@ == start + property_lines(ps.take(k as int)),
            decreases self.properties@.len() - k,
        {
            write_property(&self.properties[k], out);
            assert(ps.take(k + 1).drop_last() =~= ps.take(k as int));
            k = k + 1;
        }
        assert(ps.take(k as int) =~= ps);
        push_text(out, "}\n");
        assert(out@ =~= old(out)@ + song_text(self@));
    }
}

} // verus!
