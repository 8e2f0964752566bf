//! The metadata stored in document.json inside a .folio bundle.
//!
//! document.json holds only the document's metadata — title, subtitle,
//! page settings, timestamps and typography. The block tree lives in the
//! history snapshot (content.loro). Embedded images are stored as
//! `assets/{uuid}.{ext}`.

use vstd::prelude::*;
use crate::ids::Timestamp;
use crate::document::Document;
use crate::document::page::PageSettings;
use crate::document::TypographySettings;
use crate::text::{chars_of, push_char};
use crate::ids::uuid_text_spec;
use crate::ui::fonts::{after_last, last_dot, lemma_after_last, lemma_last_dot};

verus! {

/// The subset of Document fields stored in document.json.
/// Blocks are deliberately excluded.
#[derive(Debug, Clone)]
pub struct DocumentMetadata {
    pub id: u128,
    pub title: String,
    pub subtitle: String,
    pub created: Timestamp,
    pub modified: Timestamp,
    pub page: PageSettings,
    pub typography: TypographySettings,
}

/// The metadata of `doc`: its fields other than the blocks.
pub open spec fn metadata_of(doc: &Document) -> DocumentMetadata {
    DocumentMetadata {
        id: doc.id,
        title: doc.title,
        subtitle: doc.subtitle,
        created: doc.created,
        modified: doc.modified,
        page: doc.page,
        typography: doc.typography,
    }
}

impl<'a> From<&'a Document> for DocumentMetadata {
    fn from(doc: &'a Document) -> (m: Self) {
        DocumentMetadata {
            id: doc.id,
            title: doc.title.clone(),
            subtitle: doc.subtitle.clone(),
            created: doc.created,
            modified: doc.modified,
            page: doc.page,
            typography: doc.typography.copied(),
        }
    }
}

impl<'a> vstd::std_specs::convert::FromSpecImpl<&'a Document> for DocumentMetadata {
    open spec fn obeys_from_spec() -> bool {
        true
    }

    open spec fn from_spec(doc: &'a Document) -> Self {
        metadata_of(doc)
    }
}

// ── Assets ────────────────────────────────────────────────────────────────────

/// What `uuid::Uuid::parse_str` makes of `s`: the UUID's 128-bit value, or
/// `None` when `s` is not a UUID.
pub uninterp spec fn uuid_parse(s: Seq<char>) -> Option<u128>;

/// `Uuid::parse_str(s)` as a 128-bit value. It accepts the hyphenated
/// lower-case form that `uuid_text` writes, giving back the value written.
#[verifier::external_body]
fn parse_uuid(s: &str) -> (r: Option<u128>)
    ensures
        r == uuid_parse(s@),
        forall|id: u128| s@ == uuid_text_spec(id) ==> r == Some(id),
{
    match uuid::Uuid::parse_str(s) {
        Ok(u) => Some(u.as_u128()),
        Err(_) => None,
    }
}

/// The directory of the assets inside a bundle.
pub open spec fn assets_dir() -> Seq<char> {
    seq!['a', 's', 's', 'e', 't', 's', '/']
}

/// The stem of a file name, as `Path::file_stem` finds it: the part before
/// the last `.`, when that `.` is not the first character.
pub open spec fn file_stem_of(f: Seq<char>) -> Seq<char> {
    let k = last_dot(f);
    if k > 0 {
        f.take(k)
    } else {
        f
    }
}

/// `s` without the `c`s it ends with.
pub open spec fn trim_end(s: Seq<char>, c: char) -> Seq<char>
    decreases s.len(),
{
    if s.len() > 0 && s.last() == c {
        trim_end(s.drop_last(), c)
    } else {
        s
    }
}

/// The asset a bundle entry holds: an entry under `assets/` whose last
/// path component (as `Path::file_name` finds it, trailing slashes left
/// out) has a UUID for its stem holds the asset with that UUID, as
/// `assets/{uuid}.{ext}` does; other entries hold none.
pub open spec fn asset_id_spec(name: Seq<char>) -> Option<u128> {
    let f = after_last(trim_end(name, '/'), '/');
    if name.len() > 7 && name.take(7) == assets_dir() && f.len() > 0 {
        uuid_parse(file_stem_of(f))
    } else {
        None
    }
}

/// The UUID of the asset a bundle entry named `entry_name` holds, if any.
pub fn asset_id(entry_name: &str) -> (r: Option<u128>)
    ensures
        r == asset_id_spec(entry_name@),
{
    let v = chars_of(entry_name);
    let dir = vec!['a', 's', 's', 'e', 't', 's', '/'];
    if v.len() <= 7 {
        return None;
    }
    let mut i: usize = 0;
    while i < 7
        invariant
            7 < v@.len(),
            v@ == entry_name@,
            dir@ == assets_dir(),
            i <= 7,
            forall|j: int| 0 <= j < i ==> v@[j] == dir@[j],
        decreases 7 - i,
    {
        if v[i] != dir[i] {
            proof {
                assert(v@.take(7)[i as int] != assets_dir()[i as int]);
                assert(v@.take(7) != assets_dir());
            }
            return None;
        }
        i = i + 1;
    }
    proof {
        assert(v@.take(7) =~= assets_dir());
    }
    // End of the name without its trailing slashes.
    let mut t: usize = v.len();
    proof {
        assert(v@.take(v@.len() as int) =~= v@);
    }
    while t > 0 && v[t - 1] == '/'
        invariant
            t <= v@.len(),
            trim_end(v@, '/') == trim_end(v@.take(t as int), '/'),
        decreases t,
    {
        proof {
            assert(v@.take(t as int).drop_last() =~= v@.take(t - 1));
        }
        t = t - 1;
    }
    let ghost n = v@.take(t as int);
    proof {
        assert(trim_end(v@, '/') == n);
    }
    // Start of the last path segment.
    let mut a: usize = t;
    while a > 0 && v[a - 1] != '/'
        invariant
            a <= t <= v@.len(),
            n == v@.take(t as int),
            forall|j: int| a <= j < t ==> n[j] != '/',
        decreases a,
    {
        a = a - 1;
    }
    proof {
        lemma_after_last(n, '/', a as int);
        assert(n.subrange(a as int, t as int) =~= v@.subrange(a as int, t as int));
    }
    if a == t {
        return None;
    }
    let ghost f = v@.subrange(a as int, t as int);
    // The last dot of the segment, as an index into it plus one.
    let mut d: usize = t;
    while d > a && v[d - 1] != '.'
        invariant
            a <= d <= t <= v@.len(),
            forall|j: int| d <= j < t ==> v@[j] != '.',
        decreases d,
    {
        d = d - 1;
    }
    proof {
        lemma_last_dot(f, d - a - 1);
    }
    let end = if d > a + 1 {
        d - 1
    } else {
        t
    };
    let mut stem = String::new();
    let mut j: usize = a;
    while j < end
        invariant
            a <= j <= end <= v@.len(),
            stem@ == v@.subrange(a as int, j as int),
        decreases end - j,
    {
        push_char(&mut stem, v[j]);
        proof {
            assert(v@.subrange(a as int, j + 1) =~= v@.subrange(a as int, j as int).push(
                v@[j as int],
            ));
        }
        j = j + 1;
    }
    proof {
        if d > a + 1 {
            assert(stem@ =~= f.take(d - a - 1));
        } else {
            assert(stem@ =~= f);
        }
    }
    parse_uuid(stem.as_str())
}

} // verus!
