//! The extractor: from the markup of the status page to host records, one
//! per table row, in the order of the rows.

use vstd::prelude::*;
use vstd::string::StrSliceExecFns;
use crate::fields::{count_of, load_of, parse_count, parse_load};
use crate::host::{hosts_view, HostModel, HostRecord};

verus! {

/// The shape of a table row: five cells, each with a colour and an alignment
/// whose values are passed over, holding in turn the host's name, its up/down
/// marker, its uptime, its user count and its load. Groups 1 to 5 capture
/// those five fields.
pub const ROW_PATTERN: &'static str = "(?ms)<tr>.\
<td style=.background-color: (?:yellow|white); text-align:  (?:left|center|right);.>(?P<host>[\\w-]+)</td>.\
<td style=.background-color: (?:yellow|white); text-align:  (?:left|center|right);.>(?P<ud>[\\w-]+)</td>.\
<td style=.background-color: (?:yellow|white); text-align:  (?:left|center|right);.>(?P<uptime>[\\d\\+:,]+)</td>.\
<td style=.background-color: (?:yellow|white); text-align:  (?:left|center|right);.>(?P<users>\\d+)</td>.\
<td style=.background-color: (?:yellow|white); text-align:  (?:left|center|right);.>(?P<load>[\\d\\.]+)</td>.\
</tr>";

/// Whether the regex engine accepts `pattern`.
pub uninterp spec fn pattern_compiles(pattern: Seq<char>) -> bool;

/// The capture groups of each successive match of `pattern` in `haystack`.
pub uninterp spec fn captures_in(pattern: Seq<char>, haystack: Seq<char>) -> Seq<
    Seq<Option<Seq<char>>>,
>;

pub open spec fn text_view(o: Option<String>) -> Option<Seq<char>> {
    match o {
        Some(s) => Some(s@),
        None => None,
    }
}

pub open spec fn row_view(row: Vec<Option<String>>) -> Seq<Option<Seq<char>>> {
    row@.map_values(|o: Option<String>| text_view(o))
}

pub open spec fn rows_view(rows: Vec<Vec<Option<String>>>) -> Seq<Seq<Option<Seq<char>>>> {
    rows@.map_values(|row: Vec<Option<String>>| row_view(row))
}

/// Relies on regex::Regex::new, which accepts or refuses a pattern by its
/// text alone, and on Regex::captures_iter with Captures::iter, which give
/// for each successive non-overlapping match in `haystack` the text of every
/// capture group (group 0 the whole match, `None` for a group that took no
/// part).
#[verifier::external_body]
fn capture_all(pattern: &str, haystack: &str) -> (r: Option<Vec<Vec<Option<String>>>>)
    ensures
        r is Some == pattern_compiles(pattern@),
        r matches Some(rows) ==> rows_view(rows) == captures_in(pattern@, haystack@),
{
    match regex::Regex::new(pattern) {
        Ok(re) => Some(
            re.captures_iter(haystack).map(
                |caps| caps.iter().map(|m| m.map(|m| m.as_str().to_string())).collect(),
            ).collect(),
        ),
        Err(_) => None,
    }
}

/// The record that a row's capture groups give: groups 1 to 5 hold the name,
/// the up/down marker, the uptime, the user count and the load. `None` where
/// a group is missing or a numeric field does not read as a number.
pub open spec fn row_record(row: Seq<Option<Seq<char>>>) -> Option<HostModel> {
    if row.len() >= 6 && row[1] is Some && row[2] is Some && row[3] is Some && row[4] is Some
        && row[5] is Some && count_of(row[4].unwrap()) is Some && load_of(row[5].unwrap()) is Some {
        Some(
            HostModel {
                name: row[1].unwrap(),
                available: row[2].unwrap() == seq!['u', 'p'],
                uptime: row[3].unwrap(),
                users: count_of(row[4].unwrap()).unwrap(),
                load: load_of(row[5].unwrap()).unwrap(),
            },
        )
    } else {
        None
    }
}

/// The records of the rows that read, in the order of the rows.
pub open spec fn records_of(rows: Seq<Seq<Option<Seq<char>>>>) -> Seq<HostModel>
    decreases rows.len(),
{
    if rows.len() == 0 {
        seq![]
    } else {
        let before = records_of(rows.drop_last());
        match row_record(rows.last()) {
            Some(h) => before.push(h),
            None => before,
        }
    }
}

/// What extracting from `blob` gives: `None` only where the regex engine
/// refuses the row pattern.
pub open spec fn extracted(blob: Seq<char>) -> Option<Seq<HostModel>> {
    if pattern_compiles(ROW_PATTERN@) {
        Some(records_of(captures_in(ROW_PATTERN@, blob)))
    } else {
        None
    }
}

pub open spec fn extract_view(r: Option<Vec<HostRecord>>) -> Option<Seq<HostModel>> {
    match r {
        Some(hosts) => Some(hosts_view(hosts)),
        None => None,
    }
}

/// The record that one row's capture groups give, if its fields read.
pub fn read_row(row: &Vec<Option<String>>) -> (r: Option<HostRecord>)
    ensures
        r matches Some(h) ==> row_record(row_view(*row)) == Some(h@),
        r is None ==> row_record(row_view(*row)) is None,
{
    if row.len() < 6 {
        return None;
    }
    let name = match &row[1] {
        Some(s) => s,
        None => return None,
    };
    let marker = match &row[2] {
        Some(s) => s,
        None => return None,
    };
    let uptime = match &row[3] {
        Some(s) => s,
        None => return None,
    };
    let users_text = match &row[4] {
        Some(s) => s,
        None => return None,
    };
    let load_text = match &row[5] {
        Some(s) => s,
        None => return None,
    };
    let users = match parse_count(users_text.as_str()) {
        Some(n) => n,
        None => return None,
    };
    let load = match parse_load(load_text.as_str()) {
        Some(l) => l,
        None => return None,
    };
    let m = marker.as_str();
    let available = m.unicode_len() == 2 && m.get_char(0) == 'u' && m.get_char(1) == 'p';
    proof {
        if available {
            assert(marker@ =~= seq!['u', 'p']);
        } else if marker@ == seq!['u', 'p'] {
            assert(marker@[0] == 'u' && marker@[1] == 'p');
        }
    }
    Some(
        HostRecord {
            name: name.clone(),
            available,
            uptime: uptime.clone(),
            users,
            load,
        },
    )
}

/// The records that the captured rows give, in order; a row whose user
/// count or load does not read as a number is left out.
pub fn records_from_captures(rows: &Vec<Vec<Option<String>>>) -> (r: Vec<HostRecord>)
    ensures
        hosts_view(r) == records_of(rows_view(*rows)),
{
    let mut out: Vec<HostRecord> = Vec::new();
    let mut i: usize = 0;
    while i < rows.len()
        invariant
            i <= rows.len(),
            hosts_view(out) == records_of(rows_view(*rows).subrange(0, i as int)),
        decreases rows.len() - i,
    {
        let ghost all = rows_view(*rows);
        proof {
            assert(all.subrange(0, i + 1).drop_last() =~= all.subrange(0, i as int));
        }
        match read_row(&rows[i]) {
            Some(h) => {
                out.push(h);
                assert(hosts_view(out) =~= records_of(all.subrange(0, i + 1)));
            },
            None => {},
        }
        i = i + 1;
    }
    assert(rows_view(*rows).subrange(0, rows.len() as int) =~= rows_view(*rows));
    out
}

/// Extracts one record per table row of `blob`, in the order of the rows.
/// Text that does not have the shape of a row is passed over, and so is a
/// row whose user count or load does not read as a number; a blob without
/// rows gives no records. `None` only where the regex engine refuses the row
/// pattern.
pub fn extract(blob: &str) -> (r: Option<Vec<HostRecord>>)
    ensures
        extract_view(r) == extracted(blob@),
{
    match capture_all(ROW_PATTERN, blob) {
        Some(rows) => Some(records_from_captures(&rows)),
        None => None,
    }
}

/// A row whose load does not read as a number takes nothing from the rows
/// beside it: of two rows, one with such a load, only the other's record is
/// extracted, whichever comes first.
pub proof fn lemma_unreadable_row_isolated(
    good: Seq<Option<Seq<char>>>,
    bad: Seq<Option<Seq<char>>>,
)
    requires
        row_record(good) is Some,
        bad.len() >= 6,
        bad[5] is Some,
        load_of(bad[5].unwrap()) is None,
    ensures
        records_of(seq![bad, good]) == seq![row_record(good).unwrap()],
        records_of(seq![good, bad]) == seq![row_record(good).unwrap()],
{
    let h = row_record(good).unwrap();
    assert(seq![bad, good].drop_last() =~= seq![bad]);
    assert(seq![bad].drop_last() =~= Seq::<Seq<Option<Seq<char>>>>::empty());
    assert(seq![good, bad].drop_last() =~= seq![good]);
    assert(seq![good].drop_last() =~= Seq::<Seq<Option<Seq<char>>>>::empty());
    assert(row_record(bad) is None);
    assert(records_of(Seq::<Seq<Option<Seq<char>>>>::empty()) == Seq::<HostModel>::empty());
    assert(seq![bad].last() == bad);
    assert(records_of(seq![bad]) =~= Seq::<HostModel>::empty());
    assert(records_of(seq![good]) =~= seq![h]);
    assert(records_of(seq![bad, good]) =~= seq![h]);
}

/// Extracting twice from the same blob gives the same records.
pub proof fn lemma_extract_repeatable(
    blob: Seq<char>,
    first: Option<Seq<HostModel>>,
    second: Option<Seq<HostModel>>,
)
    requires
        first == extracted(blob),
        second == extracted(blob),
    ensures
        first is Some == second is Some,
        first matches Some(a) ==> second matches Some(b) && a.len() == b.len() && forall|i: int|
            0 <= i < a.len() ==> a[i] == b[i],
{
}

} // verus!
