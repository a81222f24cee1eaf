//! The journal configuration (`wit.toml`): display units and the tracked
//! locations, each known by its slug and its display name.

use vstd::prelude::*;

use crate::error::{ErrorView, WitError};
use crate::text::{ascii_lower, is_ascii_text};

verus! {

/// What `slug::slugify` returns for `s`.
pub uninterp spec fn slug_of(s: Seq<char>) -> Seq<char>;

/// Whether `c` may appear in a slug: `a`..`z`, `0`..`9` or `-`.
pub open spec fn is_slug_char(c: char) -> bool {
    ('a' <= c && c <= 'z') || ('0' <= c && c <= '9') || c == '-'
}

/// The slug of ASCII text so far, and whether it ends in a separator (or is
/// still empty): letters and digits are kept, capitals lowercased, and each
/// run of other characters becomes a single `-`, none at the start.
pub open spec fn slug_scan(s: Seq<char>) -> (Seq<char>, bool)
    decreases s.len(),
{
    if s.len() == 0 {
        (seq![], true)
    } else {
        let (out, dash) = slug_scan(s.drop_last());
        let c = s.last();
        if ('a' <= c && c <= 'z') || ('0' <= c && c <= '9') {
            (out.push(c), false)
        } else if 'A' <= c && c <= 'Z' {
            (out.push(ascii_lower(c)), false)
        } else if !dash {
            (out.push('-'), true)
        } else {
            (out, true)
        }
    }
}

/// The slug of ASCII text: `slug_scan`'s result without a trailing `-`.
pub open spec fn ascii_slug(s: Seq<char>) -> Seq<char> {
    let out = slug_scan(s).0;
    if out.len() > 0 && out.last() == '-' { out.drop_last() } else { out }
}

/// `slug::slugify`. The result is named; what is stated beyond the name is
/// what the crate documents and its source does: a slug consists of `a`-`z`,
/// `0`-`9` and `-`, never starts or ends with `-`, and for ASCII text is
/// `ascii_slug`. How other characters are transliterated is left unsaid.
#[verifier::external_body]
pub(crate) fn slugify(s: &str) -> (r: String)
    ensures
        r@ == slug_of(s@),
        forall|i: int| 0 <= i < r@.len() ==> is_slug_char(#[trigger] r@[i]),
        r@.len() > 0 ==> r@[0] != '-' && r@.last() != '-',
        is_ascii_text(s@) ==> r@ == ascii_slug(s@),
{
    slug::slugify(s)
}

/// Display settings.
#[derive(Debug)]
pub struct Settings {
    pub units: String,
}

/// A tracked location: the slug it is stored under and its display name.
#[derive(Debug)]
pub struct LocationEntry {
    pub slug: String,
    pub name: String,
}

/// The whole configuration.
#[derive(Debug)]
pub struct WitConfig {
    pub settings: Settings,
    pub locations: Vec<LocationEntry>,
}

/// The model of a `WitConfig`: the unit system and the (slug, name) pairs
/// of the tracked locations, in the order they were added.
pub struct ConfigView {
    pub units: Seq<char>,
    pub locations: Seq<(Seq<char>, Seq<char>)>,
}

impl View for LocationEntry {
    type V = (Seq<char>, Seq<char>);

    open spec fn view(&self) -> (Seq<char>, Seq<char>) {
        (self.slug@, self.name@)
    }
}

impl View for WitConfig {
    type V = ConfigView;

    open spec fn view(&self) -> ConfigView {
        ConfigView {
            units: self.settings.units@,
            locations: self.locations@.map_values(|l: LocationEntry| l@),
        }
    }
}

/// Whether a location with this slug is tracked.
pub open spec fn tracks(c: ConfigView, slug: Seq<char>) -> bool {
    exists|i: int| 0 <= i < c.locations.len() && (#[trigger] c.locations[i]).0 == slug
}

/// The index of the first tracked location, from `i` on, with this slug, or -1.
pub open spec fn entry_from(locs: Seq<(Seq<char>, Seq<char>)>, slug: Seq<char>, i: int) -> int
    decreases locs.len() - i,
{
    if i < 0 || i >= locs.len() {
        -1
    } else if locs[i].0 == slug {
        i
    } else {
        entry_from(locs, slug, i + 1)
    }
}

/// The index of the first tracked location with this slug, or -1.
pub open spec fn entry_index(c: ConfigView, slug: Seq<char>) -> int {
    entry_from(c.locations, slug, 0)
}

/// The configuration after tracking one more location.
pub open spec fn with_location(c: ConfigView, slug: Seq<char>, name: Seq<char>) -> ConfigView {
    ConfigView { units: c.units, locations: c.locations.push((slug, name)) }
}

proof fn lemma_entry_from(locs: Seq<(Seq<char>, Seq<char>)>, slug: Seq<char>, i: int)
    requires
        0 <= i,
    ensures
        entry_from(locs, slug, i) == -1 <==> forall|j: int|
            i <= j < locs.len() ==> (#[trigger] locs[j]).0 != slug,
        entry_from(locs, slug, i) != -1 ==> i <= entry_from(locs, slug, i) < locs.len() && locs[entry_from(
            locs,
            slug,
            i,
        )].0 == slug,
    decreases locs.len() - i,
{
    if i < locs.len() && locs[i].0 != slug {
        lemma_entry_from(locs, slug, i + 1);
    }
}

/// A location is found exactly when it is tracked, and what is found holds the slug.
pub proof fn lemma_entry_index(c: ConfigView, slug: Seq<char>)
    ensures
        entry_index(c, slug) != -1 <==> tracks(c, slug),
        entry_index(c, slug) != -1 ==> 0 <= entry_index(c, slug) < c.locations.len()
            && c.locations[entry_index(c, slug)].0 == slug,
{
    lemma_entry_from(c.locations, slug, 0);
}

/// The units setting used when none is given.
pub fn default_units() -> (r: String)
    ensures
        r@ == "imperial"@,
{
    String::from_str("imperial")
}

impl Default for Settings {
    /// Settings with the default units.
    fn default() -> (r: Settings)
        ensures
            r.units@ == "imperial"@,
    {
        Settings { units: default_units() }
    }
}

impl Default for WitConfig {
    /// The configuration of a fresh journal: default units, nothing tracked.
    fn default() -> (r: WitConfig)
        ensures
            r@.units == "imperial"@,
            r@.locations.len() == 0,
    {
        WitConfig { settings: Settings::default(), locations: Vec::new() }
    }
}

impl WitConfig {
    /// Whether a location with this slug is tracked.
    pub fn has_location(&self, slug: &str) -> (r: bool)
        ensures
            r == tracks(self@, slug@),
    {
        self.find_location(slug).is_some()
    }

    /// The index of the first tracked location with this slug.
    pub fn find_location(&self, slug: &str) -> (r: Option<usize>)
        ensures
            match r {
                Some(i) => i as int == entry_index(self@, slug@),
                None => entry_index(self@, slug@) == -1,
            },
            r is Some <==> tracks(self@, slug@),
    {
        proof {
            lemma_entry_index(self@, slug@);
        }
        let target = String::from_str(slug);
        let mut i: usize = 0;
        while i < self.locations.len()
            invariant
                i <= self.locations.len(),
                target@ == slug@,
                entry_index(self@, slug@) == entry_from(self@.locations, slug@, i as int),
            decreases self.locations.len() - i,
        {
            assert(self@.locations[i as int] == self.locations[i as int]@);
            if self.locations[i].slug == target {
                return Some(i);
            }
            i = i + 1;
        }
        None
    }

    /// Tracks one more location.
    pub fn add_location(&mut self, slug: String, name: String)
        ensures
            final(self)@ == with_location(old(self)@, slug@, name@),
    {
        let ghost before = self@;
        self.locations.push(LocationEntry { slug, name });
        assert(self@.locations =~= before.locations.push((slug@, name@)));
    }
}

/// Adding a location makes it tracked and leaves every other slug as it was.
pub proof fn law_add_then_has(c: ConfigView, slug: Seq<char>, name: Seq<char>, other: Seq<char>)
    ensures
        tracks(with_location(c, slug, name), slug),
        other != slug ==> (tracks(with_location(c, slug, name), other) == tracks(c, other)),
{
    let d = with_location(c, slug, name);
    assert(d.locations[c.locations.len() as int].0 == slug);
    if other != slug {
        if tracks(d, other) {
            let i = choose|i: int| 0 <= i < d.locations.len() && (#[trigger] d.locations[i]).0 == other;
            assert(i < c.locations.len());
            assert(c.locations[i] == d.locations[i]);
        }
        if tracks(c, other) {
            let i = choose|i: int| 0 <= i < c.locations.len() && (#[trigger] c.locations[i]).0 == other;
            assert(d.locations[i] == c.locations[i]);
        }
    }
}

/// The display name for a location query: the tracked name when the
/// query's slug is tracked, else the query itself.
pub open spec fn location_name(location: Seq<char>, config: Option<ConfigView>) -> Seq<char> {
    match config {
        Some(c) => if entry_index(c, slug_of(location)) != -1 {
            c.locations[entry_index(c, slug_of(location))].1
        } else {
            location
        },
        None => location,
    }
}

/// The display name for a location query: the tracked name when the
/// query's slug is tracked, else the query itself.
pub fn resolve_location_name(location: &str, config: Option<&WitConfig>) -> (r: Result<
    String,
    WitError,
>)
    ensures
        r matches Ok(n) && n@ == location_name(
            location@,
            match config {
                Some(c) => Some(c@),
                None => None,
            },
        ),
{
    if let Some(cfg) = config {
        let slug = slugify(location);
        if let Some(i) = cfg.find_location(slug.as_str()) {
            proof {
                lemma_entry_index(cfg@, slug@);
            }
            assert(cfg@.locations[i as int] == cfg.locations[i as int]@);
            return Ok(cfg.locations[i].name.clone());
        }
    }
    Ok(String::from_str(location))
}

/// The slug under which `location` is tracked, when a configuration is at
/// hand and tracks that slug; `None` otherwise.
pub fn tracked_slug(location: &str, config: Option<&WitConfig>) -> (r: Option<String>)
    ensures
        r is Some <==> (config matches Some(c) && tracks(c@, slug_of(location@))),
        r matches Some(s) ==> s@ == slug_of(location@),
{
    match config {
        Some(cfg) => {
            let slug = slugify(location);
            if cfg.has_location(slug.as_str()) {
                Some(slug)
            } else {
                None
            }
        },
        None => None,
    }
}

/// The index of the tracked entry for `location` (found by its slug), or
/// `LocationNotFound` with the location as given.
pub fn tracked_index(config: &WitConfig, location: &str) -> (r: Result<usize, WitError>)
    ensures
        entry_index(config@, slug_of(location@)) != -1 ==> (r matches Ok(i) && i as int
            == entry_index(config@, slug_of(location@))),
        entry_index(config@, slug_of(location@)) == -1 ==> (r matches Err(e) && e@
            == ErrorView::LocationNotFound(location@)),
{
    let slug = slugify(location);
    match config.find_location(slug.as_str()) {
        Some(i) => Ok(i),
        None => Err(WitError::LocationNotFound(String::from_str(location))),
    }
}

/// The slug for a newly added place called `name`, or `LocationExists`
/// with the place's display form when that slug is already tracked.
pub fn new_location_slug(config: &WitConfig, name: &str, display: &str) -> (r: Result<
    String,
    WitError,
>)
    ensures
        !tracks(config@, slug_of(name@)) ==> (r matches Ok(s) && s@ == slug_of(name@)),
        tracks(config@, slug_of(name@)) ==> (r matches Err(e) && e@ == ErrorView::LocationExists(
            display@,
        )),
{
    let slug = slugify(name);
    if config.has_location(slug.as_str()) {
        Err(WitError::LocationExists(String::from_str(display)))
    } else {
        Ok(slug)
    }
}

/// The repository path of a location's current snapshot:
/// `locations/<slug>/current.toml`.
pub open spec fn snapshot_path(slug: Seq<char>) -> Seq<char> {
    "locations/"@ + slug + "/current.toml"@
}

/// The repository path of a location's current snapshot.
pub fn snapshot_file(slug: &str) -> (r: String)
    ensures
        r@ == snapshot_path(slug@),
{
    let mut r = String::from_str("locations/");
    r.append(slug);
    r.append("/current.toml");
    r
}

} // verus!
