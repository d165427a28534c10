//! Configuration: the directives' arguments and how levels are merged.

use vstd::prelude::*;
use vstd::string::StringSliceAdditionalSpecFns;

verus! {

/// A flag that was not configured.
pub const NGX_CONF_UNSET: isize = -1;

/// Why a directive is refused.
#[derive(Clone, Copy, Debug, PartialEq, Eq)]
pub enum ConfError {
    /// It was given before.
    Duplicate,
    /// It names no size for the zone.
    MissingSize,
    /// The size of the zone is no size.
    InvalidSize,
    /// The zone cannot be had.
    NoZone,
}

impl ConfError {
    pub open spec fn text(self) -> Option<Seq<char>> {
        match self {
            ConfError::MissingSize => Some("\"xkey_zone\" requires a zone size"@),
            ConfError::InvalidSize => Some("invalid \"xkey_zone\" size"@),
            _ => None,
        }
    }

    /// What is logged about it, if anything is.
    pub fn message(&self) -> (message: Option<&'static str>)
        ensures
            message is Some <==> self.text() is Some,
            message matches Some(m) ==> self.text() == Some(m@),
    {
        match self {
            ConfError::MissingSize => Some("\"xkey_zone\" requires a zone size"),
            ConfError::InvalidSize => Some("invalid \"xkey_zone\" size"),
            ConfError::Duplicate => None,
            ConfError::NoZone => None,
        }
    }
}

/// `http`-level configuration: the tag index zone and the response header to
/// read. `Z` is a handle on a zone.
#[derive(Debug)]
pub struct XkeyMainConf<Z> {
    /// Zone holding the tag index, once `xkey_zone` is seen.
    pub shm_zone: Option<Z>,
    /// Response header listing the tags.
    pub header: Vec<u8>,
}

impl<Z> Default for XkeyMainConf<Z> {
    /// No zone, and tags in the header `xkey`.
    fn default() -> (conf: Self)
        ensures
            conf.shm_zone is None,
            conf.header@ == "xkey".spec_bytes(),
    {
        XkeyMainConf { shm_zone: None, header: vstd::slice::slice_to_vec("xkey".as_bytes()) }
    }
}

/// A zone as `xkey_zone` asks for it: its name, and its size as written.
#[derive(Clone, Copy, Debug, PartialEq, Eq)]
pub struct ZoneRequest<'a> {
    pub name: &'a [u8],
    pub size: &'a [u8],
}

/// Where the first colon stands in `text`, or its length if there is none.
pub open spec fn first_colon(text: Seq<u8>) -> nat
    decreases text.len(),
{
    if text.len() == 0 || text[0] == ':' as u8 {
        0
    } else {
        1 + first_colon(text.drop_first())
    }
}

/// The name and the size that the arguments of `xkey_zone` give, the
/// directive's own name being the first. Both `name size` and the `name:size`
/// spelling are accepted.
pub open spec fn zone_args(args: Seq<&[u8]>) -> Option<(Seq<u8>, Seq<u8>)> {
    if args.len() >= 3 {
        Some((args[1]@, args[2]@))
    } else {
        let colon = first_colon(args[1]@) as int;
        if colon < args[1]@.len() {
            Some((args[1]@.take(colon), args[1]@.skip(colon + 1)))
        } else {
            None
        }
    }
}

fn find_colon(text: &[u8]) -> (colon: Option<usize>)
    ensures
        colon is None <==> first_colon(text@) == text@.len(),
        colon matches Some(i) ==> i == first_colon(text@) && i < text@.len(),
{
    let mut i: usize = 0;
    assert(text@.skip(0) =~= text@);
    while i < text.len()
        invariant
            i <= text@.len(),
            first_colon(text@) == i + first_colon(text@.skip(i as int)),
        decreases text@.len() - i,
    {
        if text[i] == ':' as u8 {
            return Some(i);
        }
        assert(text@.skip(i as int).drop_first() =~= text@.skip(i + 1));
        i += 1;
    }
    None
}

impl<Z> XkeyMainConf<Z> {
    /// Reads the arguments of `xkey_zone`.
    pub fn zone_request<'a>(&self, args: &Vec<&'a [u8]>) -> (request: Result<
        ZoneRequest<'a>,
        ConfError,
    >)
        requires
            args@.len() >= 2,
        ensures
            match request {
                Ok(r) => self.shm_zone is None && zone_args(args@) == Some((r.name@, r.size@)),
                Err(ConfError::Duplicate) => self.shm_zone is Some,
                Err(ConfError::MissingSize) => self.shm_zone is None && zone_args(args@) is None,
                _ => false,
            },
    {
        if self.shm_zone.is_some() {
            return Err(ConfError::Duplicate);
        }
        if args.len() >= 3 {
            return Ok(ZoneRequest { name: args[1], size: args[2] });
        }
        let text: &'a [u8] = args[1];
        match find_colon(text) {
            Some(colon) => {
                let end: usize = text.len();
                let name: &'a [u8] = &text[0..colon];
                let size: &'a [u8] = &text[colon + 1..end];
                assert(name@ =~= text@.take(colon as int));
                assert(size@ =~= text@.skip(colon + 1));
                Ok(ZoneRequest { name, size })
            },
            None => Err(ConfError::MissingSize),
        }
    }

    /// Takes over the zone that was declared for `xkey_zone`, if it was.
    pub fn set_zone(&mut self, zone: Option<Z>) -> (done: Result<(), ConfError>)
        ensures
            final(self).shm_zone == zone,
            final(self).header == old(self).header,
            done == if zone is Some {
                Ok(())
            } else {
                Err(ConfError::NoZone)
            },
    {
        self.shm_zone = zone;
        if self.shm_zone.is_some() {
            Ok(())
        } else {
            Err(ConfError::NoZone)
        }
    }

    /// Takes the argument of `xkey_header`.
    pub fn set_header(&mut self, args: &Vec<&[u8]>)
        requires
            args@.len() >= 2,
        ensures
            final(self).header@ == args@[1]@,
            final(self).shm_zone == old(self).shm_zone,
    {
        self.header = vstd::slice::slice_to_vec(args[1]);
    }
}

/// The size that parsing it returned.
pub open spec fn size_parsed(parsed: isize) -> Result<usize, ConfError> {
    if parsed == -1 {
        Err(ConfError::InvalidSize)
    } else {
        Ok(parsed as usize)
    }
}

/// The size that parsing it returned, where `-1` stands for no size.
pub fn zone_size(parsed: isize) -> (size: Result<usize, ConfError>)
    ensures
        size == size_parsed(parsed),
        size == if parsed == -1 {
            Err(ConfError::InvalidSize)
        } else {
            Ok(parsed as usize)
        },
{
    if parsed == -1 {
        Err(ConfError::InvalidSize)
    } else {
        Ok(parsed as usize)
    }
}

/// `location`-level configuration: which cache a purge endpoint acts on. `Z`
/// is a handle on a zone.
#[derive(Debug)]
pub struct XkeyLocConf<Z> {
    /// The cache zone named by `xkey_purge`.
    pub cache_zone: Option<Z>,
    /// Whether a tag missing from the index falls back to a directory scan.
    pub fallback: isize,
}

impl<Z> Default for XkeyLocConf<Z> {
    /// No purge endpoint, and nothing said about the fallback.
    fn default() -> (conf: Self)
        ensures
            conf.cache_zone is None,
            conf.fallback == NGX_CONF_UNSET,
    {
        XkeyLocConf { cache_zone: None, fallback: NGX_CONF_UNSET }
    }
}

/// A flag at one level, given what it is at the level around it. It is on
/// where neither says anything.
pub open spec fn merged_flag(own: isize, outer: isize) -> isize {
    if own != NGX_CONF_UNSET {
        own
    } else if outer != NGX_CONF_UNSET {
        outer
    } else {
        1
    }
}

/// Whether a flag turns scans on.
pub open spec fn falls_back(fallback: isize) -> bool {
    fallback != 0
}

impl<Z> XkeyLocConf<Z> {
    /// Merges in the configuration of the level around this one.
    ///
    /// The endpoint itself is not inherited: it is declared per location. Only
    /// the fallback setting inherits.
    pub fn merge(&mut self, prev: &Self)
        ensures
            final(self).fallback == merged_flag(old(self).fallback, prev.fallback),
            final(self).cache_zone == old(self).cache_zone,
    {
        if self.fallback == NGX_CONF_UNSET {
            self.fallback = if prev.fallback == NGX_CONF_UNSET {
                1
            } else {
                prev.fallback
            };
        }
    }

    /// Whether a tag missing from the index falls back to a directory scan.
    pub fn scans(&self) -> (on: bool)
        ensures
            on == falls_back(self.fallback),
            on == (self.fallback != 0),
    {
        self.fallback != 0
    }

    /// The name of the cache zone that `xkey_purge` gives.
    pub fn purge_zone<'a>(&self, args: &Vec<&'a [u8]>) -> (name: Result<&'a [u8], ConfError>)
        requires
            args@.len() >= 2,
        ensures
            name == if self.cache_zone is Some {
                Err(ConfError::Duplicate)
            } else {
                Ok(args@[1])
            },
    {
        if self.cache_zone.is_some() {
            Err(ConfError::Duplicate)
        } else {
            Ok(args[1])
        }
    }

    /// Takes over the cache zone that was found for `xkey_purge`, if it was.
    pub fn set_cache_zone(&mut self, zone: Option<Z>) -> (done: Result<(), ConfError>)
        ensures
            final(self).cache_zone == zone,
            final(self).fallback == old(self).fallback,
            done == if zone is Some {
                Ok(())
            } else {
                Err(ConfError::NoZone)
            },
    {
        self.cache_zone = zone;
        if self.cache_zone.is_some() {
            Ok(())
        } else {
            Err(ConfError::NoZone)
        }
    }
}

/// The two spellings of `xkey_zone` mean the same.
pub proof fn law_both_zone_spellings_agree(
    directive: &[u8],
    joined: &[u8],
    name: &[u8],
    size: &[u8],
)
    requires
        !name@.contains(':' as u8),
        joined@ == name@.push(':' as u8) + size@,
    ensures
        zone_args(seq![directive, joined]) == zone_args(seq![directive, name, size]),
        zone_args(seq![directive, joined]) == Some((name@, size@)),
{
    lemma_first_colon(name@, size@);
    assert(joined@.take(name@.len() as int) =~= name@);
    assert(joined@.skip(name@.len() as int + 1) =~= size@);
}

proof fn lemma_first_colon(name: Seq<u8>, size: Seq<u8>)
    requires
        !name.contains(':' as u8),
    ensures
        first_colon(name.push(':' as u8) + size) == name.len(),
    decreases name.len(),
{
    let joined = name.push(':' as u8) + size;
    if name.len() > 0 {
        assert(name.contains(name[0]));
        assert forall|c: u8| name.drop_first().contains(c) implies name.contains(c) by {
            let i = choose|i: int| 0 <= i < name.len() - 1 && name.drop_first()[i] == c;
            assert(name[i + 1] == c);
        }
        lemma_first_colon(name.drop_first(), size);
        assert(joined.drop_first() =~= name.drop_first().push(':' as u8) + size);
    }
}

/// What a flag comes to at the innermost of these levels, the outermost being
/// the first: each level is merged with what the flag is around it.
pub open spec fn effective_flag(levels: Seq<isize>) -> isize
    decreases levels.len(),
{
    if levels.len() <= 1 {
        levels[0]
    } else {
        merged_flag(levels.last(), effective_flag(levels.drop_last()))
    }
}

/// The innermost level that says anything about the fallback decides it.
pub proof fn law_innermost_setting_wins(levels: Seq<isize>, i: int)
    requires
        0 <= i < levels.len(),
        levels[i] != NGX_CONF_UNSET,
        forall|j: int| i < j < levels.len() ==> levels[j] == NGX_CONF_UNSET,
    ensures
        effective_flag(levels) == levels[i],
    decreases levels.len(),
{
    if levels.len() > 1 && i < levels.len() - 1 {
        law_innermost_setting_wins(levels.drop_last(), i);
    }
}

/// The fallback is on where no level says anything about it.
pub proof fn law_fallback_is_on_by_default(levels: Seq<isize>)
    requires
        levels.len() >= 2,
        forall|j: int| 0 <= j < levels.len() ==> levels[j] == NGX_CONF_UNSET,
    ensures
        effective_flag(levels) == 1,
    decreases levels.len(),
{
    if levels.len() > 2 {
        law_fallback_is_on_by_default(levels.drop_last());
    } else {
        assert(effective_flag(levels.drop_last()) == levels.drop_last()[0]);
    }
}

/// A flag that one level sets is what that level sets, whatever the level
/// around it says. One that it does not set is what the level around it sets,
/// and on where that sets nothing either. A flag is not set where it is -1.
pub proof fn law_own_setting_comes_first(own: isize, outer: isize)
    ensures
        own != -1 ==> merged_flag(own, outer) == own,
        own == -1 && outer != -1 ==> merged_flag(own, outer) == outer,
        own == -1 && outer == -1 ==> merged_flag(own, outer) == 1,
        NGX_CONF_UNSET == -1,
{
}

/// With two arguments or more, the first is the name and the second the size,
/// whatever they hold. With one, it is cut at its first colon, and without a
/// colon there is no size.
pub proof fn law_zone_is_cut_at_the_first_colon(args: Seq<&[u8]>, colon: int)
    requires
        args.len() >= 2,
        0 <= colon <= args[1]@.len(),
        forall|i: int| 0 <= i < colon ==> #[trigger] args[1]@[i] != 58,
        colon < args[1]@.len() ==> args[1]@[colon] == 58,
    ensures
        args.len() >= 3 ==> zone_args(args) == Some((args[1]@, args[2]@)),
        args.len() == 2 && colon == args[1]@.len() ==> zone_args(args) is None,
        args.len() == 2 && colon < args[1]@.len() ==> {
            &&& zone_args(args) matches Some((name, size))
            &&& name.len() == colon
            &&& name + seq![58u8] + size == args[1]@
        },
{
    let text = args[1]@;
    lemma_colon_stands(text, colon);
    if args.len() == 2 && colon < text.len() {
        assert(text.take(colon) + seq![58u8] + text.skip(colon + 1) =~= text);
    }
}

proof fn lemma_colon_stands(text: Seq<u8>, colon: int)
    requires
        0 <= colon <= text.len(),
        forall|i: int| 0 <= i < colon ==> #[trigger] text[i] != 58,
        colon < text.len() ==> text[colon] == 58,
    ensures
        first_colon(text) == colon,
    decreases text.len(),
{
    if colon > 0 {
        let rest = text.drop_first();
        assert(text[0] != 58);
        assert forall|i: int| 0 <= i < colon - 1 implies #[trigger] rest[i] != 58 by {
            assert(text[i + 1] != 58);
        }
        lemma_colon_stands(rest, colon - 1);
    }
}

/// What parsing a size returned is the size, unless it is -1.
pub proof fn law_parsed_size_is_the_size(parsed: isize)
    ensures
        parsed >= 0 ==> {
            &&& size_parsed(parsed) matches Ok(size)
            &&& size == parsed
        },
        parsed == -1 ==> size_parsed(parsed) == Err::<usize, ConfError>(ConfError::InvalidSize),
{
}

/// Scans are off exactly where the flag is zero.
pub proof fn law_zero_turns_scans_off(fallback: isize)
    ensures
        fallback == 0 ==> !falls_back(fallback),
        fallback > 0 || fallback < 0 ==> falls_back(fallback),
{
}

} // verus!
