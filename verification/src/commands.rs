//! The decisions of the `day-stamp` commands, apart from their reading and
//! writing: what `add` writes or why it refuses, which stamp `render` renders
//! or why it fails, which starter files `seed` writes, and what `list` shows.

use vstd::prelude::*;

use crate::catalog::{
    find_by_id, first_with_id, position_used, stamp_on, which, CatalogEntry, Stamp,
};
use crate::date::{chrono_parse_ymd, parse_date, Date, DateError};
use crate::render::{render, rendered};
use crate::text::str_eq;
use crate::validate::{lines_valid, reported_error, validate_lines, LineError};

verus! {

/// Exit code for a generic or not-found error.
pub const EXIT_ERROR: u8 = 3;

/// Exit code for an `add` that would overwrite an existing stamp.
pub const EXIT_COLLISION: u8 = 4;

/// Exit code for a schema violation in a stamp's `lines`.
pub const EXIT_SCHEMA: u8 = 5;

// ---------------------------------------------------------------------------
// add
// ---------------------------------------------------------------------------

/// The fields of a new stamp, as `day-stamp add` receives them.
#[derive(Clone, Debug)]
pub struct AddRequest {
    pub id: String,
    pub title: String,
    /// Date the stamp fires, as `YYYY-MM-DD`.
    pub date: String,
    pub lines: Vec<String>,
    pub subtitle: String,
    pub kind: String,
    pub size_hint: String,
    pub category: String,
    pub glyph_seed: Option<u64>,
}

/// Why `add` refuses a request.
#[derive(Debug)]
pub enum AddError {
    /// `--date` is not a `YYYY-MM-DD` date.
    InvalidDate(DateError),
    /// `lines` violates the schema.
    Schema(LineError),
    /// A stamp file for the date exists already; it is never overwritten.
    Collision,
}

impl AddError {
    /// The process exit code for this refusal.
    pub fn exit_code(&self) -> (code: u8)
        ensures
            code == match self {
                AddError::InvalidDate(_) => EXIT_ERROR,
                AddError::Schema(_) => EXIT_SCHEMA,
                AddError::Collision => EXIT_COLLISION,
            },
    {
        match self {
            AddError::InvalidDate(_) => EXIT_ERROR,
            AddError::Schema(_) => EXIT_SCHEMA,
            AddError::Collision => EXIT_COLLISION,
        }
    }
}

/// The file `add` writes for the date string `date`: `<date>.json`.
pub fn add_file_name(date: &str) -> (name: String)
    ensures
        name@ == date@ + ".json"@,
{
    let mut name = date.to_owned();
    name.append(".json");
    name
}

/// Decide what `add` does with `req`, given whether the file named by
/// `add_file_name(req.date)` exists and the creation timestamp to record.
/// Checks, in order: the date parses, the lines satisfy the schema, the file
/// does not exist. On success returns the file name and the stamp to write.
pub fn prepare_add(req: AddRequest, file_exists: bool, created_at: String) -> (res: Result<
    (String, Stamp),
    AddError,
>)
    ensures
        chrono_parse_ymd(req.date@) is None ==> res matches Err(AddError::InvalidDate(_)),
        chrono_parse_ymd(req.date@) is Some && !lines_valid(req.lines@) ==> (res matches Err(
            AddError::Schema(e),
        ) && reported_error(req.lines@, e)),
        chrono_parse_ymd(req.date@) is Some && lines_valid(req.lines@) && file_exists ==> res
            matches Err(AddError::Collision),
        res is Ok <==> (chrono_parse_ymd(req.date@) is Some && lines_valid(req.lines@)
            && !file_exists),
        res matches Ok((name, stamp)) ==> {
            &&& name@ == req.date@ + ".json"@
            &&& stamp.id == req.id
            &&& stamp.kind == req.kind
            &&& stamp.title == req.title
            &&& stamp.subtitle == req.subtitle
            &&& stamp.lines == req.lines
            &&& stamp.glyph_seed == req.glyph_seed
            &&& stamp.size_hint == req.size_hint
            &&& stamp.category == req.category
            &&& stamp.created_by@ == Seq::<char>::empty()
            &&& stamp.created_at == created_at
        },
{
    if let Err(e) = parse_date(req.date.as_str()) {
        return Err(AddError::InvalidDate(e));
    }
    if let Err(e) = validate_lines(req.lines.as_slice()) {
        return Err(AddError::Schema(e));
    }
    if file_exists {
        return Err(AddError::Collision);
    }
    let name = add_file_name(req.date.as_str());
    let stamp = Stamp {
        id: req.id,
        kind: req.kind,
        title: req.title,
        subtitle: req.subtitle,
        lines: req.lines,
        glyph_seed: req.glyph_seed,
        size_hint: req.size_hint,
        category: req.category,
        created_by: String::new(),
        created_at,
    };
    Ok((name, stamp))
}

// ---------------------------------------------------------------------------
// render
// ---------------------------------------------------------------------------

/// Which stamp `render` is asked for.
#[derive(Clone, Debug)]
pub enum RenderTarget {
    /// The literal `today`: the stamp firing on the current date.
    Today,
    /// The stamp with this identifier.
    Id(String),
}

/// Read the `<id>` argument of `render`.
pub fn render_target(id: &str) -> (target: RenderTarget)
    ensures
        id@ == "today"@ ==> target is Today,
        id@ != "today"@ ==> (target matches RenderTarget::Id(s) && s@ == id@),
{
    if str_eq(id, "today") {
        RenderTarget::Today
    } else {
        RenderTarget::Id(id.to_owned())
    }
}

/// Why `render` produces no bytes.
#[derive(Debug)]
pub enum RenderError {
    /// No stamp fires today.
    NoStampToday,
    /// No stamp file holds a stamp with this identifier.
    NoSuchId(String),
    /// The chosen stamp's `lines` violates the schema.
    Schema(LineError),
}

impl RenderError {
    /// The process exit code for this failure.
    pub fn exit_code(&self) -> (code: u8)
        ensures
            code == match self {
                RenderError::Schema(_) => EXIT_SCHEMA,
                _ => EXIT_ERROR,
            },
    {
        match self {
            RenderError::Schema(_) => EXIT_SCHEMA,
            _ => EXIT_ERROR,
        }
    }
}

/// The stamp `render` chooses for `target` from the catalog's `entries`.
pub open spec fn chosen_stamp(target: RenderTarget, entries: Seq<CatalogEntry>, today: Date) -> Option<
    Stamp,
> {
    match target {
        RenderTarget::Today => stamp_on(entries, today),
        RenderTarget::Id(id) => match first_with_id(entries, id@) {
            Some(e) => e.stamp,
            None => None,
        },
    }
}

/// Choose the stamp for `target` (for `Today`, the stamp firing on `today`;
/// otherwise the stamp with that identifier), check its lines, and render it.
pub fn render_stamp(target: RenderTarget, entries: Vec<CatalogEntry>, today: &Date) -> (res:
    Result<Vec<u8>, RenderError>)
    ensures
        match chosen_stamp(target, entries@, *today) {
            None => match target {
                RenderTarget::Today => res matches Err(RenderError::NoStampToday),
                RenderTarget::Id(id) => (res matches Err(RenderError::NoSuchId(i)) && i@ == id@),
            },
            Some(stamp) => if lines_valid(stamp.lines@) {
                (res matches Ok(bytes) && bytes@ == rendered(stamp))
            } else {
                (res matches Err(RenderError::Schema(e)) && reported_error(stamp.lines@, e))
            },
        },
{
    let chosen = match target {
        RenderTarget::Today => which(entries, today),
        RenderTarget::Id(id) => match find_by_id(entries, id.as_str()) {
            Some((_, stamp)) => Some(stamp),
            None => {
                return Err(RenderError::NoSuchId(id));
            },
        },
    };
    let stamp = match chosen {
        Some(stamp) => stamp,
        None => {
            return Err(RenderError::NoStampToday);
        },
    };
    if let Err(e) = validate_lines(stamp.lines.as_slice()) {
        return Err(RenderError::Schema(e));
    }
    Ok(render(&stamp))
}

// ---------------------------------------------------------------------------
// seed
// ---------------------------------------------------------------------------

/// Which starter files `seed` writes, given for each whether it exists: the
/// indices of those that do not, in order.
pub fn files_to_seed(exists: &[bool]) -> (todo: Vec<usize>)
    ensures
        forall|k: int| 0 <= k < todo@.len() ==> 0 <= #[trigger] todo@[k] < exists@.len() && !exists@[todo@[k] as int],
        forall|i: int| 0 <= i < exists@.len() && !exists@[i] ==> #[trigger] todo@.contains(i as usize),
        forall|k1: int, k2: int| 0 <= k1 < k2 < todo@.len() ==> todo@[k1] < todo@[k2],
        (forall|i: int| 0 <= i < exists@.len() ==> #[trigger] exists@[i]) ==> todo@.len() == 0,
{
    let mut todo: Vec<usize> = Vec::new();
    let n = exists.len();
    let mut i: usize = 0;
    while i < n
        invariant
            n == exists@.len(),
            i <= n,
            forall|k: int| 0 <= k < todo@.len() ==> 0 <= #[trigger] todo@[k] < i && !exists@[todo@[k] as int],
            forall|j: int| 0 <= j < i && !exists@[j] ==> #[trigger] todo@.contains(j as usize),
            forall|k1: int, k2: int| 0 <= k1 < k2 < todo@.len() ==> todo@[k1] < todo@[k2],
        decreases n - i,
    {
        if !exists[i] {
            let ghost before = todo@;
            todo.push(i);
            assert forall|j: int| 0 <= j <= i && !exists@[j] implies #[trigger] todo@.contains(j as usize) by {
                if j < i {
                    assert(before.contains(j as usize));
                    let k = choose|k: int| 0 <= k < before.len() && before[k] == j as usize;
                    assert(todo@[k] == j as usize);
                } else {
                    assert(todo@[before.len() as int] == i);
                }
            }
        }
        i = i + 1;
    }
    if todo.len() > 0 {
        assert(!exists@[todo@[0] as int]);
    }
    todo
}

// ---------------------------------------------------------------------------
// list
// ---------------------------------------------------------------------------

/// The stamps of `stamps` whose `kind` is `kind`, in order.
pub open spec fn of_kind(stamps: Seq<Stamp>, kind: Seq<char>) -> Seq<Stamp>
    decreases stamps.len(),
{
    if stamps.len() == 0 {
        Seq::empty()
    } else if stamps[0].kind@ == kind {
        seq![stamps[0]] + of_kind(stamps.drop_first(), kind)
    } else {
        of_kind(stamps.drop_first(), kind)
    }
}

/// `out` holds, at position `k`, the stamp at position `q[k]` of `src`; the
/// positions increase, each names a stamp of kind `kind`, and every stamp of
/// `src` of that kind is named.
pub open spec fn kept_in_order(out: Seq<Stamp>, src: Seq<Stamp>, kind: Seq<char>, q: Seq<int>) -> bool {
    &&& q.len() == out.len()
    &&& forall|k: int|
        0 <= k < q.len() ==> 0 <= #[trigger] q[k] < src.len() && out[k] == src[q[k]]
            && src[q[k]].kind@ == kind
    &&& forall|k1: int, k2: int| 0 <= k1 < k2 < q.len() ==> #[trigger] q[k1] < #[trigger] q[k2]
    &&& forall|i: int| 0 <= i < src.len() && (#[trigger] src[i]).kind@ == kind ==> position_used(q, i)
}

/// Filtering by kind keeps exactly the stamps of that kind, in their order.
pub proof fn lemma_of_kind_keeps_order(stamps: Seq<Stamp>, kind: Seq<char>) -> (q: Seq<int>)
    ensures
        kept_in_order(of_kind(stamps, kind), stamps, kind, q),
    decreases stamps.len(),
{
    if stamps.len() == 0 {
        Seq::empty()
    } else {
        let rest = stamps.drop_first();
        let q1 = lemma_of_kind_keeps_order(rest, kind);
        let shifted = q1.map_values(|v: int| v + 1);
        let out = of_kind(stamps, kind);
        let out1 = of_kind(rest, kind);
        let keep = stamps[0].kind@ == kind;
        let q = if keep {
            seq![0int] + shifted
        } else {
            shifted
        };
        let d: int = if keep { 1 } else { 0 };
        assert forall|k: int| 0 <= k < q.len() implies 0 <= #[trigger] q[k] < stamps.len() && out[k]
            == stamps[q[k]] && stamps[q[k]].kind@ == kind by {
            if keep && k == 0 {
            } else {
                assert(q[k] == q1[k - d] + 1);
                assert(out[k] == out1[k - d]);
                assert(rest[q1[k - d]] == stamps[q1[k - d] + 1]);
            }
        }
        assert forall|k1: int, k2: int| 0 <= k1 < k2 < q.len() implies #[trigger] q[k1]
            < #[trigger] q[k2] by {
            if keep && k1 == 0 {
                assert(q[k2] == q1[k2 - 1] + 1);
            } else {
                assert(q[k1] == q1[k1 - d] + 1);
                assert(q[k2] == q1[k2 - d] + 1);
            }
        }
        assert forall|i: int| 0 <= i < stamps.len() && (#[trigger] stamps[i]).kind@ == kind implies position_used(
            q,
            i,
        ) by {
            if i == 0 {
                assert(q[0] == 0);
            } else {
                assert(rest[i - 1] == stamps[i]);
                assert(position_used(q1, i - 1));
                let k = choose|k: int| 0 <= k < q1.len() && #[trigger] q1[k] == i - 1;
                assert(q[k + d] == i);
            }
        }
        q
    }
}

/// Keep only the stamps of the given `kind`, in order.
pub fn filter_by_kind(stamps: Vec<Stamp>, kind: &str) -> (res: Vec<Stamp>)
    ensures
        res@ == of_kind(stamps@, kind@),
        exists|q: Seq<int>| kept_in_order(res@, stamps@, kind@, q),
{
    let ghost q = lemma_of_kind_keeps_order(stamps@, kind@);
    let ghost all = stamps@;
    let wanted = kind.to_owned();
    let mut rest = stamps;
    let mut out: Vec<Stamp> = Vec::new();
    while rest.len() > 0
        invariant
            rest@ == all.take(rest@.len() as int),
            rest@.len() <= all.len(),
            wanted@ == kind@,
            out@ == of_kind(all.skip(rest@.len() as int), kind@),
        decreases rest@.len(),
    {
        let ghost k = rest@.len() as int;
        let s = rest.pop().unwrap();
        assert(all.skip(k - 1).drop_first() == all.skip(k));
        assert(all.skip(k - 1)[0] == s);
        if s.kind == wanted {
            out.insert(0, s);
        }
        assert(rest@ == all.take(k - 1));
    }
    assert(all.skip(0) == all);
    out
}

/// The plain listing line of a stamp: its identifier, two spaces, its title.
pub fn list_line(stamp: &Stamp) -> (line: String)
    ensures
        line@ == stamp.id@ + "  "@ + stamp.title@,
{
    let mut line = stamp.id.clone();
    line.append("  ");
    line.append(stamp.title.as_str());
    line
}

} // verus!
