//! The file name under which a new document is first saved.

use vstd::prelude::*;
use crate::text::{chars_of, push_char};
use crate::ids::{uuid_text, uuid_text_spec};
use crate::stats::{trim_ws, trimmed};

verus! {

/// Whether `c` is alphabetic or numeric, as `char::is_alphanumeric` says.
pub uninterp spec fn char_is_alphanumeric(c: char) -> bool;

/// `char::is_alphanumeric`: `c` has the Unicode `Alphabetic` property or a
/// numeric general category. The tables behind it are named, not stated.
#[verifier::external_body]
fn is_alphanumeric(c: char) -> (r: bool)
    ensures
        r == char_is_alphanumeric(c),
{
    c.is_alphanumeric()
}

/// A title character as it may stand in a file name: letters, digits and
/// spaces stay, anything else becomes `_`.
pub open spec fn safe_char(c: char) -> char {
    if char_is_alphanumeric(c) || c == ' ' {
        c
    } else {
        '_'
    }
}

/// The first 40 characters of `title`, made safe for a file name.
pub open spec fn safe_title_spec(title: Seq<char>) -> Seq<char> {
    let n = if title.len() < 40 {
        title.len() as int
    } else {
        40
    };
    title.take(n).map_values(|c: char| safe_char(c))
}

/// The first 40 characters of `title`, made safe for a file name.
pub fn safe_title(title: &str) -> (s: String)
    ensures
        s@ == safe_title_spec(title@),
{
    let v = chars_of(title);
    let n: usize = if v.len() < 40 {
        v.len()
    } else {
        40
    };
    let mut out = String::new();
    let mut i: usize = 0;
    while i < n
        invariant
            n <= v@.len(),
            i <= n,
            out@ == v@.take(i as int).map_values(|c: char| safe_char(c)),
        decreases n - i,
    {
        let c = v[i];
        let keep = is_alphanumeric(c) || c == ' ';
        push_char(&mut out, if keep { c } else { '_' });
        proof {
            assert(v@.take(i as int + 1).map_values(|c: char| safe_char(c)) =~= v@.take(
                i as int,
            ).map_values(|c: char| safe_char(c)).push(safe_char(c)));
        }
        i = i + 1;
    }
    out
}

/// The file name of a new document: its safe title, trimmed, a hyphen, its
/// id as a UUID, and `.folio`.
pub open spec fn document_file_name_spec(title: Seq<char>, id: u128) -> Seq<char> {
    trim_ws(safe_title_spec(title)) + seq!['-'] + uuid_text_spec(id) + ".folio"@
}

/// The file name of a new document with `title` and `id`.
pub fn document_file_name(title: &str, id: u128) -> (s: String)
    ensures
        s@ == document_file_name_spec(title@, id),
{
    let safe = safe_title(title);
    let mut out = trimmed(safe.as_str());
    push_char(&mut out, '-');
    out.append(uuid_text(id).as_str());
    out.append(".folio");
    proof {
        assert(out@ =~= document_file_name_spec(title@, id));
    }
    out
}

} // verus!
