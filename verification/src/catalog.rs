//! Stamp catalog: the stamp model, where the catalog lives, and the lookups
//! over the catalog's files.
//!
//! One stamp per JSON file. Date-specific files (`<YYYY-MM-DD>.json`) shadow
//! recurring files (`<MM-DD>.json`) for the same calendar day. The files are
//! read elsewhere; here a catalog is the list of its entries, each a file
//! name with the stamp it holds when it holds a well-formed one.

use vstd::prelude::*;

use crate::date::{
    lemma_recurring_name_injective, lemma_specific_name_injective, lemma_specific_never_recurring,
    recurring_file_name, recurring_name, specific_file_name, specific_name, Date,
};
use crate::text::{seq_lt, str_eq, str_lt};

pub use crate::date::parse_date;

verus! {

/// A single special-day stamp.
#[derive(Clone, Debug)]
pub struct Stamp {
    /// Stable identifier, e.g. `printer-arrives`.
    pub id: String,
    /// One of `birthday | anniversary | milestone | named-day | custom`.
    pub kind: String,
    /// Display title, rendered centered.
    pub title: String,
    /// Secondary line under the title (often the date).
    pub subtitle: String,
    /// Body lines, 0..=12, each at most 40 graphemes.
    pub lines: Vec<String>,
    /// Optional glyph seed; when set with empty `lines`, render a raster.
    pub glyph_seed: Option<u64>,
    /// `small | medium | large`; controls trailing feed-line count.
    pub size_hint: String,
    /// Free-form user category; not interpreted by code.
    pub category: String,
    /// Who authored the stamp.
    pub created_by: String,
    /// RFC 3339 creation timestamp; orders the catalog listing.
    pub created_at: String,
}

/// The `kind` of a stamp whose file does not give one.
pub fn default_kind() -> (kind: String)
    ensures
        kind@ == "custom"@,
{
    String::from_str("custom")
}

/// The `size_hint` of a stamp whose file does not give one.
pub fn default_size() -> (size: String)
    ensures
        size@ == "medium"@,
{
    String::from_str("medium")
}

// ---------------------------------------------------------------------------
// Where the catalog lives
// ---------------------------------------------------------------------------

/// No environment value locates the catalog.
#[derive(Debug)]
pub struct UnresolvedCatalogDir;

impl UnresolvedCatalogDir {
    /// The diagnostic text.
    pub fn message(&self) -> (msg: String)
        ensures
            msg@ == "cannot resolve catalog dir: set XDG_CONFIG_HOME or HOME"@,
    {
        String::from_str("cannot resolve catalog dir: set XDG_CONFIG_HOME or HOME")
    }
}

/// `base` extended by the relative component `part`, with one `/` between
/// them unless `base` is empty or already ends in `/`.
pub open spec fn join_path(base: Seq<char>, part: Seq<char>) -> Seq<char> {
    if base.len() > 0 && base.last() != '/' {
        base + seq!['/'] + part
    } else {
        base + part
    }
}

/// A set, non-empty environment value.
pub open spec fn given(v: Option<String>) -> bool {
    v matches Some(s) && s@.len() > 0
}

/// The catalog directory for the given environment values: the explicit
/// override, else `$XDG_CONFIG_HOME/daily-receipt/stamps`, else
/// `$HOME/.config/daily-receipt/stamps`; empty values count as unset.
pub open spec fn resolved_dir(
    override_dir: Option<String>,
    xdg_config_home: Option<String>,
    home: Option<String>,
) -> Option<Seq<char>> {
    if given(override_dir) {
        Some(override_dir.unwrap()@)
    } else if given(xdg_config_home) {
        Some(join_path(join_path(xdg_config_home.unwrap()@, "daily-receipt"@), "stamps"@))
    } else if given(home) {
        Some(
            join_path(
                join_path(join_path(home.unwrap()@, ".config"@), "daily-receipt"@),
                "stamps"@,
            ),
        )
    } else {
        None
    }
}

/// Which environment value locates the catalog: a non-empty override wins;
/// else a non-empty `XDG_CONFIG_HOME` with `daily-receipt/stamps` under it;
/// else a non-empty `HOME` with `.config/daily-receipt/stamps` under it,
/// whether `XDG_CONFIG_HOME` is unset or empty; else nothing.
pub proof fn lemma_catalog_dir_precedence(
    override_dir: Option<String>,
    xdg_config_home: Option<String>,
    home: Option<String>,
)
    ensures
        override_dir is Some && override_dir.unwrap()@.len() > 0 ==> resolved_dir(
            override_dir,
            xdg_config_home,
            home,
        ) == Some(override_dir.unwrap()@),
        !given(override_dir) && xdg_config_home is Some && xdg_config_home.unwrap()@.len() > 0
            ==> resolved_dir(override_dir, xdg_config_home, home) == Some(
            join_path(join_path(xdg_config_home.unwrap()@, "daily-receipt"@), "stamps"@),
        ),
        !given(override_dir) && (xdg_config_home is None || xdg_config_home.unwrap()@.len() == 0)
            && home is Some && home.unwrap()@.len() > 0 ==> resolved_dir(
            override_dir,
            xdg_config_home,
            home,
        ) == Some(
            join_path(
                join_path(join_path(home.unwrap()@, ".config"@), "daily-receipt"@),
                "stamps"@,
            ),
        ),
        !given(override_dir) && !given(xdg_config_home) && !given(home) ==> resolved_dir(
            override_dir,
            xdg_config_home,
            home,
        ) is None,
{
}

fn push_component(path: &mut String, part: &str)
    ensures
        final(path)@ == join_path(old(path)@, part@),
{
    let n = path.as_str().unicode_len();
    if n > 0 && path.as_str().get_char(n - 1) != '/' {
        path.append("/");
        proof {
            reveal_strlit("/");
        }
    }
    path.append(part);
}

/// Resolve the catalog directory from the values of `DAY_STAMP_CATALOG_DIR`,
/// `XDG_CONFIG_HOME` and `HOME` (`None` where unset).
pub fn catalog_dir(
    override_dir: Option<String>,
    xdg_config_home: Option<String>,
    home: Option<String>,
) -> (res: Result<String, UnresolvedCatalogDir>)
    ensures
        match resolved_dir(override_dir, xdg_config_home, home) {
            Some(dir) => res matches Ok(d) && d@ == dir,
            None => res is Err,
        },
        !given(override_dir) && !given(xdg_config_home) && home is Some && home.unwrap()@.len() > 0
            ==> (res matches Ok(d) && d@ == join_path(
            join_path(join_path(home.unwrap()@, ".config"@), "daily-receipt"@),
            "stamps"@,
        )),
        !given(override_dir) && !given(xdg_config_home) && !given(home) ==> res is Err,
{
    proof {
        lemma_catalog_dir_precedence(override_dir, xdg_config_home, home);
    }
    if let Some(dir) = override_dir {
        if dir.as_str().unicode_len() > 0 {
            return Ok(dir);
        }
    }
    if let Some(xdg) = xdg_config_home {
        if xdg.as_str().unicode_len() > 0 {
            let mut path = xdg;
            push_component(&mut path, "daily-receipt");
            push_component(&mut path, "stamps");
            return Ok(path);
        }
    }
    if let Some(h) = home {
        if h.as_str().unicode_len() > 0 {
            let mut path = h;
            push_component(&mut path, ".config");
            push_component(&mut path, "daily-receipt");
            push_component(&mut path, "stamps");
            return Ok(path);
        }
    }
    Err(UnresolvedCatalogDir)
}


// ---------------------------------------------------------------------------
// Lookups over the catalog's entries
// ---------------------------------------------------------------------------

/// One file of the catalog: its name, and the stamp it holds when it is a
/// readable file with a well-formed stamp in it.
#[derive(Clone, Debug)]
pub struct CatalogEntry {
    pub name: String,
    pub stamp: Option<Stamp>,
}

/// The stamp of the first entry named `name` that holds one.
pub open spec fn lookup(entries: Seq<CatalogEntry>, name: Seq<char>) -> Option<Stamp>
    decreases entries.len(),
{
    if entries.len() == 0 {
        None
    } else if entries[0].name@ == name && entries[0].stamp is Some {
        entries[0].stamp
    } else {
        lookup(entries.drop_first(), name)
    }
}

/// The stamp firing on `date`: the date-specific stamp when there is one,
/// else the recurring stamp for the month and day, else none.
pub open spec fn stamp_on(entries: Seq<CatalogEntry>, date: Date) -> Option<Stamp> {
    match lookup(entries, specific_name(date)) {
        Some(s) => Some(s),
        None => lookup(entries, recurring_name(date)),
    }
}

/// A date's two file names differ.
pub proof fn lemma_own_names_differ(date: Date)
    ensures
        specific_name(date) != recurring_name(date),
{
    assert(specific_name(date).len() > recurring_name(date).len());
}

/// Return the stamp matching `date`: the date-specific file wins over the
/// recurring one. `entries` holds (at least) the catalog's files named by
/// `specific_file_name(date)` and `recurring_file_name(date)`.
pub fn which(entries: Vec<CatalogEntry>, date: &Date) -> (res: Option<Stamp>)
    ensures
        res == stamp_on(entries@, *date),
{
    let specific = specific_file_name(date);
    let recurring = recurring_file_name(date);
    proof {
        lemma_own_names_differ(*date);
    }
    let ghost all = entries@;
    let mut rest = entries;
    let mut found_specific: Option<Stamp> = None;
    let mut found_recurring: Option<Stamp> = None;
    while rest.len() > 0
        invariant
            rest@ == all.take(rest@.len() as int),
            rest@.len() <= all.len(),
            specific@ == specific_name(*date),
            recurring@ == recurring_name(*date),
            specific@ != recurring@,
            found_specific == lookup(all.skip(rest@.len() as int), specific@),
            found_recurring == lookup(all.skip(rest@.len() as int), recurring@),
        decreases rest@.len(),
    {
        let ghost k = rest@.len() as int;
        let entry = rest.pop().unwrap();
        assert(all.skip(k - 1).drop_first() == all.skip(k));
        assert(all.skip(k - 1)[0] == entry);
        let CatalogEntry { name, stamp } = entry;
        if let Some(s) = stamp {
            if name == specific {
                found_specific = Some(s);
            } else if name == recurring {
                found_recurring = Some(s);
            }
        }
        assert(rest@ == all.take(k - 1));
    }
    assert(all.skip(0) == all);
    match found_specific {
        Some(s) => Some(s),
        None => found_recurring,
    }
}

/// The catalog without the files named `name`.
pub open spec fn without(entries: Seq<CatalogEntry>, name: Seq<char>) -> Seq<CatalogEntry>
    decreases entries.len(),
{
    if entries.len() == 0 {
        Seq::empty()
    } else if entries[0].name@ == name {
        without(entries.drop_first(), name)
    } else {
        seq![entries[0]] + without(entries.drop_first(), name)
    }
}

/// Removing the files named `other` leaves the lookup of `name` unchanged.
pub proof fn lemma_lookup_without(entries: Seq<CatalogEntry>, other: Seq<char>, name: Seq<char>)
    requires
        other != name,
    ensures
        lookup(without(entries, other), name) == lookup(entries, name),
    decreases entries.len(),
{
    if entries.len() > 0 {
        lemma_lookup_without(entries.drop_first(), other, name);
        if entries[0].name@ != other {
            let w = without(entries, other);
            assert(w.drop_first() == without(entries.drop_first(), other));
        }
    }
}

/// When a date-specific stamp exists for `date`, it is the one that fires,
/// whatever recurring stamp exists for the same month and day.
pub proof fn lemma_specific_shadows_recurring(entries: Seq<CatalogEntry>, date: Date)
    requires
        lookup(entries, specific_name(date)) is Some,
    ensures
        stamp_on(entries, date) == lookup(entries, specific_name(date)),
{
}

/// Without date-specific stamps, the recurring stamp of a month and day fires
/// on that month and day in every year.
pub proof fn lemma_recurring_fires_every_year(entries: Seq<CatalogEntry>, d1: Date, d2: Date)
    requires
        d1.month == d2.month,
        d1.day == d2.day,
        lookup(entries, specific_name(d1)) is None,
        lookup(entries, specific_name(d2)) is None,
    ensures
        stamp_on(entries, d1) == lookup(entries, recurring_name(d1)),
        stamp_on(entries, d1) == stamp_on(entries, d2),
{
    assert(recurring_name(d1) == recurring_name(d2));
}

/// A date-specific file decides only its own date: removing it changes the
/// stamp of no other date.
pub proof fn lemma_specific_file_fires_once(entries: Seq<CatalogEntry>, d: Date, other: Date)
    requires
        other != d,
    ensures
        stamp_on(without(entries, specific_name(d)), other) == stamp_on(entries, other),
{
    if specific_name(d) == specific_name(other) {
        lemma_specific_name_injective(d, other);
    }
    lemma_specific_never_recurring(d, other);
    lemma_lookup_without(entries, specific_name(d), specific_name(other));
    lemma_lookup_without(entries, specific_name(d), recurring_name(other));
}

/// A recurring file decides only its own month and day: removing it changes
/// the stamp of no date with another month or day.
pub proof fn lemma_recurring_file_keeps_to_its_day(
    entries: Seq<CatalogEntry>,
    d: Date,
    other: Date,
)
    requires
        other.month != d.month || other.day != d.day,
    ensures
        stamp_on(without(entries, recurring_name(d)), other) == stamp_on(entries, other),
{
    if recurring_name(d) == recurring_name(other) {
        lemma_recurring_name_injective(d, other);
    }
    lemma_specific_never_recurring(other, d);
    lemma_lookup_without(entries, recurring_name(d), specific_name(other));
    lemma_lookup_without(entries, recurring_name(d), recurring_name(other));
}

/// Whether a file name has the extension `json`: it ends in `.json` with
/// something before the dot (a name such as `.json` has no extension).
pub open spec fn has_json_extension(name: Seq<char>) -> bool {
    name.len() > 5 && name.subrange(name.len() - 5, name.len() as int) == ".json"@
}

/// Whether the file `name` counts as a stamp file of the catalog.
pub fn is_stamp_file(name: &str) -> (res: bool)
    ensures
        res == has_json_extension(name@),
{
    let n = name.unicode_len();
    if n <= 5 {
        return false;
    }
    let ext = name.substring_char(n - 5, n);
    str_eq(ext, ".json")
}

/// Whether `entry` is a stamp file holding a stamp with identifier `id`.
pub open spec fn holds_id(entry: CatalogEntry, id: Seq<char>) -> bool {
    &&& has_json_extension(entry.name@)
    &&& entry.stamp matches Some(s)
    &&& s.id@ == id
}

/// The first entry that is a stamp file holding a stamp with identifier `id`.
pub open spec fn first_with_id(entries: Seq<CatalogEntry>, id: Seq<char>) -> Option<CatalogEntry>
    decreases entries.len(),
{
    if entries.len() == 0 {
        None
    } else if holds_id(entries[0], id) {
        Some(entries[0])
    } else {
        first_with_id(entries.drop_first(), id)
    }
}

/// What `first_with_id` finds: the first entry that is a `.json` file holding
/// a stamp whose identifier is exactly `id`; none when no entry is.
pub proof fn lemma_first_with_id_exact(entries: Seq<CatalogEntry>, id: Seq<char>)
    ensures
        match first_with_id(entries, id) {
            Some(e) => exists|k: int|
                0 <= k < entries.len() && #[trigger] entries[k] == e && has_json_extension(e.name@)
                    && e.stamp is Some && e.stamp.unwrap().id@ == id && forall|j: int|
                    0 <= j < k ==> !(has_json_extension(entries[j].name@)
                        && entries[j].stamp is Some && entries[j].stamp.unwrap().id@ == id),
            None => forall|k: int|
                0 <= k < entries.len() ==> !(has_json_extension(#[trigger] entries[k].name@)
                    && entries[k].stamp is Some && entries[k].stamp.unwrap().id@ == id),
        },
    decreases entries.len(),
{
    if entries.len() > 0 {
        let rest = entries.drop_first();
        lemma_first_with_id_exact(rest, id);
        if !holds_id(entries[0], id) {
            match first_with_id(rest, id) {
                Some(e) => {
                    let k = choose|k: int|
                        0 <= k < rest.len() && #[trigger] rest[k] == e && has_json_extension(
                            e.name@,
                        ) && e.stamp is Some && e.stamp.unwrap().id@ == id && forall|j: int|
                            0 <= j < k ==> !(has_json_extension(rest[j].name@)
                                && rest[j].stamp is Some && rest[j].stamp.unwrap().id@ == id);
                    assert(entries[k + 1] == e);
                    assert forall|j: int| 0 <= j < k + 1 implies !(has_json_extension(
                        entries[j].name@,
                    ) && entries[j].stamp is Some && entries[j].stamp.unwrap().id@ == id) by {
                        if j > 0 {
                            assert(entries[j] == rest[j - 1]);
                        }
                    }
                },
                None => {
                    assert forall|k: int| 0 <= k < entries.len() implies !(has_json_extension(
                        #[trigger] entries[k].name@,
                    ) && entries[k].stamp is Some && entries[k].stamp.unwrap().id@ == id) by {
                        if k > 0 {
                            assert(entries[k] == rest[k - 1]);
                        }
                    }
                },
            }
        } else {
            assert(entries[0] == entries[0]);
        }
    }
}

/// Find the stamp file whose stamp `id` matches, in catalog order;
/// unparseable files are skipped. Returns the file name and the stamp.
pub fn find_by_id(entries: Vec<CatalogEntry>, id: &str) -> (res: Option<(String, Stamp)>)
    ensures
        match first_with_id(entries@, id@) {
            None => res is None,
            Some(e) => res matches Some((name, stamp)) && name@ == e.name@ && Some(stamp)
                == e.stamp,
        },
        res matches Some((name, stamp)) ==> {
            &&& stamp.id@ == id@
            &&& has_json_extension(name@)
            &&& exists|k: int|
                0 <= k < entries@.len() && (#[trigger] entries@[k]).name@ == name@
                    && entries@[k].stamp == Some(stamp) && forall|j: int|
                    0 <= j < k ==> !(has_json_extension(entries@[j].name@)
                        && entries@[j].stamp is Some && entries@[j].stamp.unwrap().id@ == id@)
        },
        res is None ==> forall|k: int|
            0 <= k < entries@.len() ==> !(has_json_extension(#[trigger] entries@[k].name@)
                && entries@[k].stamp is Some && entries@[k].stamp.unwrap().id@ == id@),
{
    proof {
        lemma_first_with_id_exact(entries@, id@);
    }
    let ghost all = entries@;
    let wanted = id.to_owned();
    let mut rest = entries;
    let mut found: Option<(String, Stamp)> = None;
    while rest.len() > 0
        invariant
            rest@ == all.take(rest@.len() as int),
            rest@.len() <= all.len(),
            wanted@ == id@,
            match first_with_id(all.skip(rest@.len() as int), id@) {
                None => found is None,
                Some(e) => found matches Some((name, stamp)) && name@ == e.name@ && Some(stamp)
                    == e.stamp,
            },
        decreases rest@.len(),
    {
        let ghost k = rest@.len() as int;
        let entry = rest.pop().unwrap();
        assert(all.skip(k - 1).drop_first() == all.skip(k));
        assert(all.skip(k - 1)[0] == entry);
        let CatalogEntry { name, stamp } = entry;
        if is_stamp_file(name.as_str()) {
            if let Some(s) = stamp {
                if s.id == wanted {
                    found = Some((name, s));
                }
            }
        }
        assert(rest@ == all.take(k - 1));
    }
    assert(all.skip(0) == all);
    found
}


/// The stamps of the catalog's stamp files, in catalog order; files without
/// a well-formed stamp are skipped.
pub open spec fn listed(entries: Seq<CatalogEntry>) -> Seq<Stamp>
    decreases entries.len(),
{
    if entries.len() == 0 {
        Seq::empty()
    } else if has_json_extension(entries[0].name@) && entries[0].stamp is Some {
        seq![entries[0].stamp.unwrap()] + listed(entries.drop_first())
    } else {
        listed(entries.drop_first())
    }
}

/// `s` is the stamp of some `.json` entry of the catalog.
pub open spec fn stamp_of_some_file(entries: Seq<CatalogEntry>, s: Stamp) -> bool {
    exists|k: int|
        0 <= k < entries.len() && has_json_extension(#[trigger] entries[k].name@)
            && entries[k].stamp == Some(s)
}

/// Number of `.json` entries that hold a well-formed stamp.
pub open spec fn stamp_file_count(entries: Seq<CatalogEntry>) -> nat
    decreases entries.len(),
{
    if entries.len() == 0 {
        0
    } else {
        (if has_json_extension(entries[0].name@) && entries[0].stamp is Some {
            1nat
        } else {
            0nat
        }) + stamp_file_count(entries.drop_first())
    }
}

/// The catalog's stamps are exactly those of its `.json` entries that hold a
/// well-formed stamp, whatever the stamp's fields: one per such entry, each
/// such entry's stamp among them, and no other.
pub proof fn lemma_listed_exactly_stamp_files(entries: Seq<CatalogEntry>)
    ensures
        listed(entries).len() == stamp_file_count(entries),
        forall|k: int|
            0 <= k < entries.len() && has_json_extension(#[trigger] entries[k].name@)
                && entries[k].stamp is Some ==> listed(entries).contains(entries[k].stamp.unwrap()),
        forall|q: int|
            0 <= q < listed(entries).len() ==> stamp_of_some_file(
                entries,
                #[trigger] listed(entries)[q],
            ),
    decreases entries.len(),
{
    if entries.len() > 0 {
        let rest = entries.drop_first();
        lemma_listed_exactly_stamp_files(rest);
        let l = listed(entries);
        let lr = listed(rest);
        let keep = has_json_extension(entries[0].name@) && entries[0].stamp is Some;
        assert forall|k: int|
            0 <= k < entries.len() && has_json_extension(#[trigger] entries[k].name@)
                && entries[k].stamp is Some implies l.contains(entries[k].stamp.unwrap()) by {
            if k == 0 {
                assert(l[0] == entries[0].stamp.unwrap());
            } else {
                assert(entries[k] == rest[k - 1]);
                assert(lr.contains(rest[k - 1].stamp.unwrap()));
                let q = choose|q: int| 0 <= q < lr.len() && lr[q] == rest[k - 1].stamp.unwrap();
                if keep {
                    assert(l[q + 1] == lr[q]);
                } else {
                    assert(l[q] == lr[q]);
                }
            }
        }
        assert forall|q: int| 0 <= q < l.len() implies stamp_of_some_file(
            entries,
            #[trigger] l[q],
        ) by {
            if keep && q == 0 {
                assert(has_json_extension(entries[0].name@));
                assert(entries[0].stamp == Some(l[0]));
            } else {
                let q2 = if keep { q - 1 } else { q };
                assert(l[q] == lr[q2]);
                assert(stamp_of_some_file(rest, lr[q2]));
                let k = choose|k: int|
                    0 <= k < rest.len() && has_json_extension(#[trigger] rest[k].name@)
                        && rest[k].stamp == Some(lr[q2]);
                assert(entries[k + 1] == rest[k]);
            }
        }
    }
}

/// Whether `a` was created strictly before `b`, comparing `created_at` as
/// strings.
pub open spec fn created_before(a: Stamp, b: Stamp) -> bool {
    seq_lt(a.created_at@, b.created_at@)
}

/// No stamp is listed before one created strictly earlier.
pub open spec fn sorted_by_created(s: Seq<Stamp>) -> bool {
    forall|i: int, j: int| 0 <= i < j < s.len() ==> !created_before(#[trigger] s[j], #[trigger] s[i])
}

/// `out` places `src[p[k]]` at position `k`, using every position of `src`
/// once, and keeps stamps with the same `created_at` in their order in `src`.
pub open spec fn stable_arrangement(out: Seq<Stamp>, src: Seq<Stamp>, p: Seq<int>) -> bool {
    &&& out.len() == src.len()
    &&& p.len() == out.len()
    &&& forall|k: int| 0 <= k < p.len() ==> 0 <= #[trigger] p[k] < src.len() && out[k] == src[p[k]]
    &&& forall|k1: int, k2: int| 0 <= k1 < k2 < p.len() ==> #[trigger] p[k1] != #[trigger] p[k2]
    &&& forall|k1: int, k2: int|
        0 <= k1 < k2 < p.len() && (#[trigger] out[k1]).created_at@ == (#[trigger] out[k2]).created_at@
            ==> p[k1] < p[k2]
    &&& forall|q: int| 0 <= q < src.len() ==> #[trigger] position_used(p, q)
}

/// Some position of `p` holds `q`.
pub open spec fn position_used(p: Seq<int>, q: int) -> bool {
    exists|k: int| 0 <= k < p.len() && #[trigger] p[k] == q
}

/// `out` is `src` stably sorted by `created_at`.
pub open spec fn stable_sort_of(out: Seq<Stamp>, src: Seq<Stamp>) -> bool {
    &&& sorted_by_created(out)
    &&& exists|p: Seq<int>| stable_arrangement(out, src, p)
}

/// Inserts `x` before the first stamp of `out` not created strictly before it.
fn insert_by_created(out: &mut Vec<Stamp>, x: Stamp) -> (pos: usize)
    requires
        sorted_by_created(old(out)@),
    ensures
        pos <= old(out)@.len(),
        final(out)@ == old(out)@.insert(pos as int, x),
        forall|j: int| 0 <= j < pos ==> created_before(#[trigger] old(out)@[j], x),
        pos < old(out)@.len() ==> !created_before(old(out)@[pos as int], x),
{
    let mut pos: usize = 0;
    while pos < out.len() && str_lt(out[pos].created_at.as_str(), x.created_at.as_str())
        invariant
            pos <= out@.len(),
            out@ == old(out)@,
            forall|j: int| 0 <= j < pos ==> created_before(#[trigger] out@[j], x),
        decreases out@.len() - pos,
    {
        pos = pos + 1;
    }
    out.insert(pos, x);
    pos
}

/// Inserting the stamp at the front of `src` into a stable sort of the rest,
/// before every stamp not created strictly before it, gives a stable sort of
/// all of `src`.
proof fn lemma_insert_keeps_stable_sort(
    out: Seq<Stamp>,
    src: Seq<Stamp>,
    p: Seq<int>,
    x: Stamp,
    pos: int,
) -> (p2: Seq<int>)
    requires
        sorted_by_created(out),
        stable_arrangement(out, src, p),
        0 <= pos <= out.len(),
        forall|j: int| 0 <= j < pos ==> created_before(#[trigger] out[j], x),
        pos < out.len() ==> !created_before(out[pos], x),
    ensures
        sorted_by_created(out.insert(pos, x)),
        stable_arrangement(out.insert(pos, x), seq![x] + src, p2),
{
    let out2 = out.insert(pos, x);
    let src2 = seq![x] + src;
    let p2 = p.map_values(|v: int| v + 1).insert(pos, 0);
    assert forall|i: int, j: int| 0 <= i < j < out2.len() implies !created_before(
        #[trigger] out2[j],
        #[trigger] out2[i],
    ) by {
        if j < pos {
        } else if j == pos {
            crate::text::lemma_seq_lt_asymmetric(out[i].created_at@, x.created_at@);
        } else if i < pos {
            crate::text::lemma_seq_lt_asymmetric(out[i].created_at@, x.created_at@);
            assert(!created_before(out[j - 1], out[i]));
        } else if i == pos {
            if j - 1 > pos {
                assert(!created_before(out[j - 1], out[pos]));
            } else {
                crate::text::lemma_seq_lt_irreflexive(out[pos].created_at@);
            }
            crate::text::lemma_seq_not_lt_transitive(
                x.created_at@,
                out[pos].created_at@,
                out[j - 1].created_at@,
            );
        } else {
            assert(!created_before(out[j - 1], out[i - 1]));
        }
    }
    assert forall|k: int| 0 <= k < p2.len() implies 0 <= #[trigger] p2[k] < src2.len() && out2[k]
        == src2[p2[k]] by {
        if k < pos {
            assert(p2[k] == p[k] + 1);
        } else if k > pos {
            assert(p2[k] == p[k - 1] + 1);
        }
    }
    assert forall|k1: int, k2: int| 0 <= k1 < k2 < p2.len() implies #[trigger] p2[k1]
        != #[trigger] p2[k2] by {
        if k1 != pos && k2 != pos {
            let a = if k1 < pos { k1 } else { k1 - 1 };
            let b = if k2 < pos { k2 } else { k2 - 1 };
            assert(p[a] != p[b]);
        } else if k1 == pos {
            assert(p2[k2] == p[k2 - 1] + 1);
        } else {
            assert(p2[k1] == p[k1] + 1);
        }
    }
    assert forall|k1: int, k2: int|
        0 <= k1 < k2 < p2.len() && (#[trigger] out2[k1]).created_at@
            == (#[trigger] out2[k2]).created_at@ implies p2[k1] < p2[k2] by {
        if k1 != pos && k2 != pos {
            let a = if k1 < pos { k1 } else { k1 - 1 };
            let b = if k2 < pos { k2 } else { k2 - 1 };
            assert(p[a] < p[b]);
        } else if k1 == pos {
            assert(p2[k2] == p[k2 - 1] + 1);
        } else {
            crate::text::lemma_seq_lt_irreflexive(x.created_at@);
            assert(created_before(out[k1], x));
        }
    }
    assert forall|q: int| 0 <= q < src2.len() implies #[trigger] position_used(p2, q) by {
        if q == 0 {
            assert(p2[pos] == 0);
        } else {
            assert(position_used(p, q - 1));
            let k0 = choose|k: int| 0 <= k < p.len() && #[trigger] p[k] == q - 1;
            if k0 < pos {
                assert(p2[k0] == q);
            } else {
                assert(p2[k0 + 1] == q);
            }
        }
    }
    p2
}

/// List the catalog's stamps, sorted by `created_at` (stable: stamps created
/// at the same instant keep their catalog order).
pub fn list_all(entries: Vec<CatalogEntry>) -> (res: Vec<Stamp>)
    ensures
        stable_sort_of(res@, listed(entries@)),
        res@.len() == stamp_file_count(entries@),
        forall|k: int|
            0 <= k < entries@.len() && has_json_extension(#[trigger] entries@[k].name@)
                && entries@[k].stamp is Some ==> res@.contains(entries@[k].stamp.unwrap()),
        forall|q: int| 0 <= q < res@.len() ==> stamp_of_some_file(entries@, #[trigger] res@[q]),
{
    proof {
        lemma_listed_exactly_stamp_files(entries@);
    }
    let ghost all = entries@;
    let mut rest = entries;
    let mut out: Vec<Stamp> = Vec::new();
    let ghost mut p: Seq<int> = Seq::empty();
    while rest.len() > 0
        invariant
            rest@ == all.take(rest@.len() as int),
            rest@.len() <= all.len(),
            sorted_by_created(out@),
            stable_arrangement(out@, listed(all.skip(rest@.len() as int)), p),
        decreases rest@.len(),
    {
        let ghost k = rest@.len() as int;
        let entry = rest.pop().unwrap();
        assert(all.skip(k - 1).drop_first() == all.skip(k));
        assert(all.skip(k - 1)[0] == entry);
        let CatalogEntry { name, stamp } = entry;
        if is_stamp_file(name.as_str()) {
            if let Some(s) = stamp {
                let ghost before = out@;
                let ghost x = s;
                let pos = insert_by_created(&mut out, s);
                proof {
                    p = lemma_insert_keeps_stable_sort(
                        before,
                        listed(all.skip(k)),
                        p,
                        x,
                        pos as int,
                    );
                }
            }
        }
        assert(rest@ == all.take(k - 1));
    }
    assert(all.skip(0) == all);
    proof {
        let src = listed(all);
        assert forall|k: int|
            0 <= k < all.len() && has_json_extension(#[trigger] all[k].name@) && all[k].stamp is Some
                implies out@.contains(all[k].stamp.unwrap()) by {
            let st = all[k].stamp.unwrap();
            assert(src.contains(st));
            let q = choose|q: int| 0 <= q < src.len() && src[q] == st;
            assert(position_used(p, q));
            let j = choose|j: int| 0 <= j < p.len() && #[trigger] p[j] == q;
            assert(out@[j] == src[p[j]]);
        }
        assert forall|q: int| 0 <= q < out@.len() implies stamp_of_some_file(
            all,
            #[trigger] out@[q],
        ) by {
            assert(out@[q] == src[p[q]]);
        }
    }
    out
}

} // verus!
