//! The launch screen's list of documents: which files are documents, their
//! titles and dates, newest file first.

use vstd::prelude::*;
use crate::text::chars_of;
use crate::ids::Timestamp;
use crate::ui::fonts::last_dot;

verus! {

/// How `chrono` writes the moment `secs` seconds and `nanos` nanoseconds
/// after the epoch (UTC) with the format `%d %b %Y, %H:%M`; empty when
/// the moment is outside chrono's range.
pub uninterp spec fn date_label_of(secs: i64, nanos: u32) -> Seq<char>;

/// `DateTime::<Utc>::from_timestamp(secs, nanos)` written by
/// `DateTime::format("%d %b %Y, %H:%M")`; the empty string when
/// `from_timestamp` gives no date. The text is named, not spelled out.
#[verifier::external_body]
fn date_label(t: Timestamp) -> (s: String)
    ensures
        s@ == date_label_of(t.secs, t.nanos),
{
    match chrono::DateTime::<chrono::Utc>::from_timestamp(t.secs, t.nanos) {
        Some(d) => d.format("%d %b %Y, %H:%M").to_string(),
        None => String::new(),
    }
}

/// What a document file's metadata says, when it could be read.
#[derive(Debug, Clone)]
pub struct LaunchMeta {
    pub title: String,
    pub modified: Timestamp,
}

/// A file of the documents directory: its name, its metadata if it could
/// be read, and the file's own modification time if it is known.
#[derive(Debug, Clone)]
pub struct LaunchEntry {
    pub file_name: String,
    pub meta: Option<LaunchMeta>,
    pub file_time: Option<Timestamp>,
}

/// A row of the launch screen: the entry it shows, its title and its date.
#[derive(Debug, Clone)]
pub struct LaunchRow {
    pub entry: usize,
    pub title: String,
    pub date: String,
}

/// The file name has the extension `folio`, as `Path::extension` finds
/// it: after the last `.`, when that `.` is not the name's first character.
pub open spec fn is_folio_name(name: Seq<char>) -> bool {
    let k = last_dot(name);
    k > 0 && name.skip(k + 1) == seq!['f', 'o', 'l', 'i', 'o']
}

/// The title a row shows: the document's title, "Untitled" when it is
/// empty, "Unknown document" when the metadata could not be read.
pub open spec fn row_title(e: LaunchEntry) -> Seq<char> {
    match e.meta {
        Some(m) => if m.title@.len() == 0 {
            "Untitled"@
        } else {
            m.title@
        },
        None => "Unknown document"@,
    }
}

/// The date a row shows: the document's modification time, or nothing
/// when the metadata could not be read.
pub open spec fn row_date(e: LaunchEntry) -> Seq<char> {
    match e.meta {
        Some(m) => date_label_of(m.modified.secs, m.modified.nanos),
        None => Seq::empty(),
    }
}

/// A time as one number, ordered as the times are: by seconds, then by
/// nanoseconds; an unknown time comes before every known one.
pub open spec fn time_key(t: Option<Timestamp>) -> int {
    match t {
        Some(x) => x.secs * 0x1_0000_0000 + x.nanos,
        None => i64::MIN * 0x1_0000_0000 - 1,
    }
}

/// Row `r` shows entry `e` of `entries`.
pub open spec fn shows(entries: Seq<LaunchEntry>, r: LaunchRow) -> bool {
    &&& r.entry < entries.len()
    &&& is_folio_name(entries[r.entry as int].file_name@)
    &&& r.title@ == row_title(entries[r.entry as int])
    &&& r.date@ == row_date(entries[r.entry as int])
}

/// Row `a` may come before row `b`: its file is newer, or as new and it
/// came first in the directory.
pub open spec fn comes_before(entries: Seq<LaunchEntry>, a: LaunchRow, b: LaunchRow) -> bool {
    let ka = time_key(entries[a.entry as int].file_time);
    let kb = time_key(entries[b.entry as int].file_time);
    ka > kb || (ka == kb && a.entry < b.entry)
}

/// Whether `a` is a later time than `b`.
fn later(a: Option<Timestamp>, b: Option<Timestamp>) -> (r: bool)
    ensures
        r == (time_key(a) > time_key(b)),
{
    match (a, b) {
        (None, _) => false,
        (Some(_), None) => true,
        (Some(x), Some(y)) => x.secs > y.secs || (x.secs == y.secs && x.nanos > y.nanos),
    }
}

/// Whether `name` has the extension `folio`.
pub fn is_folio(name: &str) -> (r: bool)
    ensures
        r == is_folio_name(name@),
{
    let v = chars_of(name);
    let mut k: usize = v.len();
    while k > 0 && v[k - 1] != '.'
        invariant
            k <= v@.len(),
            forall|j: int| k <= j < v@.len() ==> v@[j] != '.',
        decreases k,
    {
        k = k - 1;
    }
    proof {
        crate::ui::fonts::lemma_last_dot(v@, k - 1);
    }
    if k <= 1 || v.len() - k != 5 {
        proof {
            if k > 1 {
                assert(v@.skip(k as int).len() != 5);
            }
        }
        return false;
    }
    let r = v[k] == 'f' && v[k + 1] == 'o' && v[k + 2] == 'l' && v[k + 3] == 'i' && v[k + 4] == 'o';
    proof {
        let tail = v@.skip(k as int);
        if r {
            assert(tail =~= seq!['f', 'o', 'l', 'i', 'o']);
        } else {
            assert(tail != seq!['f', 'o', 'l', 'i', 'o'] || tail[0] != 'f' || tail[1] != 'o'
                || tail[2] != 'l' || tail[3] != 'i' || tail[4] != 'o');
        }
    }
    r
}

/// The row that entry `k` shows.
fn row_of(entries: &Vec<LaunchEntry>, k: usize) -> (r: LaunchRow)
    requires
        k < entries@.len(),
    ensures
        r.entry == k,
        r.title@ == row_title(entries@[k as int]),
        r.date@ == row_date(entries@[k as int]),
{
    let e = &entries[k];
    match &e.meta {
        Some(m) => {
            let title = if m.title.as_str().is_empty() {
                "Untitled".to_string()
            } else {
                m.title.clone()
            };
            proof {
                reveal_strlit("Untitled");
            }
            LaunchRow { entry: k, title, date: date_label(m.modified) }
        },
        None => {
            proof {
                reveal_strlit("Unknown document");
            }
            LaunchRow { entry: k, title: "Unknown document".to_string(), date: String::new() }
        },
    }
}

/// The rows of the launch screen: one for each entry whose file name has
/// the extension `folio`, with its title and date, the newest file first
/// and, among files as new, in the entries' order.
pub fn launch_rows(entries: &Vec<LaunchEntry>) -> (rows: Vec<LaunchRow>)
    ensures
        forall|i: int| 0 <= i < rows@.len() ==> #[trigger] shows(entries@, rows@[i]),
        forall|i: int, j: int|
            #![trigger rows@[i], rows@[j]]
            0 <= i < j < rows@.len() ==> rows@[i].entry != rows@[j].entry && comes_before(
                entries@,
                rows@[i],
                rows@[j],
            ),
        forall|k: int|
            0 <= k < entries@.len() && is_folio_name(#[trigger] entries@[k].file_name@) ==> exists|
                i: int,
            |
                0 <= i < rows@.len() && rows@[i].entry == k,
{
    let mut rows: Vec<LaunchRow> = Vec::new();
    let mut k: usize = 0;
    while k < entries.len()
        invariant
            k <= entries@.len(),
            forall|i: int| 0 <= i < rows@.len() ==> #[trigger] shows(entries@, rows@[i]),
            forall|i: int| 0 <= i < rows@.len() ==> #[trigger] rows@[i].entry < k,
            forall|i: int, j: int|
                #![trigger rows@[i], rows@[j]]
            0 <= i < j < rows@.len() ==> rows@[i].entry != rows@[j].entry && comes_before(
                    entries@,
                    rows@[i],
                    rows@[j],
                ),
            forall|kk: int|
                0 <= kk < k && is_folio_name(#[trigger] entries@[kk].file_name@) ==> exists|
                    i: int,
                |
                    0 <= i < rows@.len() && rows@[i].entry == kk,
        decreases entries@.len() - k,
    {
        if is_folio(entries[k].file_name.as_str()) {
            let row = row_of(entries, k);
            let t = entries[k].file_time;
            let mut p: usize = 0;
            loop
                invariant
                    p <= rows@.len(),
                    forall|i: int| 0 <= i < rows@.len() ==> #[trigger] shows(entries@, rows@[i]),
                    forall|i: int| 0 <= i < rows@.len() ==> #[trigger] rows@[i].entry < k,
                    forall|i: int, j: int|
                        #![trigger rows@[i], rows@[j]]
            0 <= i < j < rows@.len() ==> rows@[i].entry != rows@[j].entry
                            && comes_before(entries@, rows@[i], rows@[j]),
                    forall|kk: int|
                        0 <= kk < k && is_folio_name(#[trigger] entries@[kk].file_name@) ==> exists|
                            i: int,
                        |
                            0 <= i < rows@.len() && rows@[i].entry == kk,
                    forall|i: int|
                        0 <= i < p ==> time_key(t) <= time_key(
                            entries@[#[trigger] rows@[i].entry as int].file_time,
                        ),
                ensures
                    p <= rows@.len(),
                    forall|i: int| 0 <= i < rows@.len() ==> #[trigger] shows(entries@, rows@[i]),
                    forall|i: int| 0 <= i < rows@.len() ==> #[trigger] rows@[i].entry < k,
                    forall|i: int, j: int|
                        #![trigger rows@[i], rows@[j]]
            0 <= i < j < rows@.len() ==> rows@[i].entry != rows@[j].entry
                            && comes_before(entries@, rows@[i], rows@[j]),
                    forall|kk: int|
                        0 <= kk < k && is_folio_name(#[trigger] entries@[kk].file_name@) ==> exists|
                            i: int,
                        |
                            0 <= i < rows@.len() && rows@[i].entry == kk,
                    forall|i: int|
                        0 <= i < p ==> time_key(t) <= time_key(
                            entries@[#[trigger] rows@[i].entry as int].file_time,
                        ),
                    p < rows@.len() ==> time_key(t) > time_key(
                        entries@[rows@[p as int].entry as int].file_time,
                    ),
                decreases rows@.len() - p,
            {
                if p >= rows.len() {
                    break;
                }
                proof {
                    assert(shows(entries@, rows@[p as int]));
                }
                if later(t, entries[rows[p].entry].file_time) {
                    break;
                }
                p = p + 1;
            }
            let ghost old_rows = rows@;
            rows.insert(p, row);
            proof {
                assert(rows@ == old_rows.insert(p as int, row));
                assert forall|i: int| 0 <= i < rows@.len() implies #[trigger] shows(
                    entries@,
                    rows@[i],
                ) by {
                    if i < p {
                        assert(rows@[i] == old_rows[i]);
                    } else if i > p {
                        assert(rows@[i] == old_rows[i - 1]);
                    }
                }
                assert forall|i: int| 0 <= i < rows@.len() implies #[trigger] rows@[i].entry < k
                    + 1 by {
                    if i < p {
                        assert(rows@[i] == old_rows[i]);
                    } else if i > p {
                        assert(rows@[i] == old_rows[i - 1]);
                    }
                }
                assert forall|i: int, j: int| 0 <= i < j < rows@.len() implies rows@[i].entry
                    != rows@[j].entry && comes_before(entries@, rows@[i], rows@[j]) by {
                    if j < p {
                        assert(rows@[i] == old_rows[i]);
                        assert(rows@[j] == old_rows[j]);
                        assert(old_rows[i].entry != old_rows[j].entry);
                    } else if j == p {
                        assert(rows@[i] == old_rows[i]);
                        assert(rows@[j] == row);
                        assert(old_rows[i].entry < k);
                        assert(time_key(t) <= time_key(
                            entries@[old_rows[i].entry as int].file_time,
                        ));
                    } else if i == p {
                        assert(rows@[i] == row);
                        assert(rows@[j] == old_rows[j - 1]);
                        assert(old_rows[j - 1].entry < k);
                        if j - 1 > p {
                            assert(comes_before(entries@, old_rows[p as int], old_rows[j - 1]));
                        }
                        assert(time_key(t) > time_key(
                            entries@[old_rows[p as int].entry as int].file_time,
                        ));
                    } else if i < p {
                        assert(rows@[i] == old_rows[i]);
                        assert(rows@[j] == old_rows[j - 1]);
                        assert(old_rows[i].entry != old_rows[j - 1].entry);
                    } else {
                        assert(rows@[i] == old_rows[i - 1]);
                        assert(rows@[j] == old_rows[j - 1]);
                        assert(old_rows[i - 1].entry != old_rows[j - 1].entry);
                    }
                }
                assert forall|kk: int|
                    0 <= kk < k + 1 && is_folio_name(
                        #[trigger] entries@[kk].file_name@,
                    ) implies exists|i: int| 0 <= i < rows@.len() && rows@[i].entry == kk by {
                    if kk == k {
                        assert(rows@[p as int].entry == kk);
                    } else {
                        let i = choose|i: int| 0 <= i < old_rows.len() && old_rows[i].entry == kk;
                        if i < p {
                            assert(rows@[i] == old_rows[i]);
                        } else {
                            assert(rows@[i + 1] == old_rows[i]);
                        }
                    }
                }
            }
        }
        k = k + 1;
    }
    rows
}

} // verus!
