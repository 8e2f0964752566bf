//! Font files: which URLs and file names are fonts, and the names under
//! which installed fonts are listed.

use vstd::prelude::*;
use crate::text::{chars_of, push_char};

verus! {

/// The part of `s` after its last `sep` (all of `s` when there is none).
pub open spec fn after_last(s: Seq<char>, sep: char) -> Seq<char>
    decreases s.len(),
{
    if s.len() == 0 {
        Seq::empty()
    } else if s.last() == sep {
        Seq::empty()
    } else {
        after_last(s.drop_last(), sep).push(s.last())
    }
}

/// The part of `s` before its first `sep` (all of `s` when there is none).
pub open spec fn before_first(s: Seq<char>, sep: char) -> Seq<char>
    decreases s.len(),
{
    if s.len() == 0 {
        Seq::empty()
    } else if s[0] == sep {
        Seq::empty()
    } else {
        seq![s[0]] + before_first(s.drop_first(), sep)
    }
}

/// `s` ends with `suffix`.
pub open spec fn ends_with(s: Seq<char>, suffix: Seq<char>) -> bool {
    s.len() >= suffix.len() && s.subrange(s.len() - suffix.len(), s.len() as int) == suffix
}

/// `name` ends in `.ttf`, `.otf` or `.woff2`.
pub open spec fn has_font_suffix(name: Seq<char>) -> bool {
    ends_with(name, seq!['.', 't', 't', 'f']) || ends_with(name, seq!['.', 'o', 't', 'f'])
        || ends_with(name, seq!['.', 'w', 'o', 'f', 'f', '2'])
}

/// The file name a font downloaded from `url` is stored under: the URL's
/// last path segment without its query; none when that is not a font file.
pub open spec fn font_file_name_spec(url: Seq<char>) -> Option<Seq<char>> {
    let name = before_first(after_last(url, '/'), '?');
    if has_font_suffix(name) {
        Some(name)
    } else {
        None
    }
}

fn ends_with_chars(v: &Vec<char>, suffix: &Vec<char>) -> (r: bool)
    ensures
        r == ends_with(v@, suffix@),
{
    if v.len() < suffix.len() {
        return false;
    }
    let off = v.len() - suffix.len();
    let mut i: usize = 0;
    while i < suffix.len()
        invariant
            off + suffix@.len() == v@.len(),
            v@.len() == v.len(),
            i <= suffix@.len(),
            forall|j: int| 0 <= j < i ==> v@[off + j] == suffix@[j],
        decreases suffix@.len() - i,
    {
        let a = v[off + i];
        let b = suffix[i];
        if a != b {
            proof {
                assert(v@.subrange(off as int, v@.len() as int)[i as int] != suffix@[i as int]);
            }
            return false;
        }
        i = i + 1;
    }
    proof {
        assert(v@.subrange(off as int, v@.len() as int) =~= suffix@);
    }
    true
}

fn is_font_name(v: &Vec<char>) -> (r: bool)
    ensures
        r == has_font_suffix(v@),
{
    let ttf = vec!['.', 't', 't', 'f'];
    let otf = vec!['.', 'o', 't', 'f'];
    let woff2 = vec!['.', 'w', 'o', 'f', 'f', '2'];
    proof {
        assert(ttf@ =~= seq!['.', 't', 't', 'f']);
        assert(otf@ =~= seq!['.', 'o', 't', 'f']);
        assert(woff2@ =~= seq!['.', 'w', 'o', 'f', 'f', '2']);
    }
    ends_with_chars(v, &ttf) || ends_with_chars(v, &otf) || ends_with_chars(v, &woff2)
}

pub proof fn lemma_after_last(s: Seq<char>, sep: char, k: int)
    requires
        0 <= k <= s.len(),
        k == 0 || s[k - 1] == sep,
        forall|j: int| k <= j < s.len() ==> s[j] != sep,
    ensures
        after_last(s, sep) == s.subrange(k, s.len() as int),
    decreases s.len(),
{
    if s.len() > k {
        lemma_after_last(s.drop_last(), sep, k);
        assert(s.subrange(k, s.len() as int) =~= s.drop_last().subrange(k, s.len() - 1).push(
            s.last(),
        ));
    } else if s.len() > 0 {
        assert(s.subrange(k, s.len() as int) =~= Seq::<char>::empty());
    }
}

proof fn lemma_before_first(s: Seq<char>, sep: char, k: int)
    requires
        0 <= k <= s.len(),
        k == s.len() || s[k] == sep,
        forall|j: int| 0 <= j < k ==> s[j] != sep,
    ensures
        before_first(s, sep) == s.take(k),
    decreases s.len(),
{
    if k > 0 {
        lemma_before_first(s.drop_first(), sep, k - 1);
        assert(s.take(k) =~= seq![s[0]] + s.drop_first().take(k - 1));
    } else if s.len() > 0 {
        assert(s.take(0) =~= Seq::<char>::empty());
    }
}

/// The file name for a font downloaded from `url`, or `None` when the URL
/// does not name a `.ttf`, `.otf` or `.woff2` file.
pub fn font_file_name(url: &str) -> (r: Option<String>)
    ensures
        match font_file_name_spec(url@) {
            Some(n) => r matches Some(x) && x@ == n,
            None => r is None,
        },
{
    let v = chars_of(url);
    // Start of the last path segment.
    let mut k: usize = v.len();
    while k > 0 && v[k - 1] != '/'
        invariant
            k <= v@.len(),
            forall|j: int| k <= j < v@.len() ==> v@[j] != '/',
        decreases k,
    {
        k = k - 1;
    }
    proof {
        lemma_after_last(v@, '/', k as int);
    }
    let ghost seg = v@.subrange(k as int, v@.len() as int);
    // End of the segment before any query.
    let mut e: usize = k;
    while e < v.len() && v[e] != '?'
        invariant
            k <= e <= v@.len(),
            forall|j: int| k <= j < e ==> v@[j] != '?',
        decreases v@.len() - e,
    {
        e = e + 1;
    }
    proof {
        assert forall|j: int| 0 <= j < e - k implies seg[j] != '?' by {
            assert(seg[j] == v@[k + j]);
        }
        if e < v@.len() {
            assert(seg[e - k] == v@[e as int]);
        }
        lemma_before_first(seg, '?', e - k);
        assert(seg.take(e - k) =~= v@.subrange(k as int, e as int));
    }
    let mut name: Vec<char> = Vec::new();
    let mut out = String::new();
    let mut i: usize = k;
    while i < e
        invariant
            k <= i <= e <= v@.len(),
            name@ == v@.subrange(k as int, i as int),
            out@ == name@,
        decreases e - i,
    {
        name.push(v[i]);
        push_char(&mut out, v[i]);
        proof {
            assert(v@.subrange(k as int, i as int + 1) =~= v@.subrange(k as int, i as int).push(
                v@[i as int],
            ));
        }
        i = i + 1;
    }
    if is_font_name(&name) {
        Some(out)
    } else {
        None
    }
}

/// Index of the last `.` of `s`, or -1 when there is none.
pub open spec fn last_dot(s: Seq<char>) -> int
    decreases s.len(),
{
    if s.len() == 0 {
        -1
    } else if s.last() == '.' {
        s.len() - 1
    } else {
        last_dot(s.drop_last())
    }
}

/// The name an installed font file is listed under: its stem, when its
/// extension is `ttf`, `otf` or `woff2`. As for `Path::extension`, a name
/// has an extension when it has a `.` other than a leading one; the
/// extension follows the last `.` and the stem comes before it.
pub open spec fn font_stem_spec(file_name: Seq<char>) -> Option<Seq<char>> {
    let k = last_dot(file_name);
    if k > 0 && has_font_suffix(file_name) {
        Some(file_name.take(k))
    } else {
        None
    }
}

pub proof fn lemma_last_dot(s: Seq<char>, k: int)
    requires
        -1 <= k < s.len(),
        k >= 0 ==> s[k] == '.',
        forall|j: int| k < j < s.len() ==> s[j] != '.',
    ensures
        last_dot(s) == k,
    decreases s.len(),
{
    if s.len() > 0 && s.len() - 1 > k {
        lemma_last_dot(s.drop_last(), k);
    }
}

/// The name an installed font file is listed under, or `None` when it is
/// not a font file.
pub fn font_stem(file_name: &str) -> (r: Option<String>)
    ensures
        match font_stem_spec(file_name@) {
            Some(n) => r matches Some(x) && x@ == n,
            None => r is None,
        },
{
    let v = chars_of(file_name);
    let mut k: usize = v.len();
    while k > 0 && v[k - 1] != '.'
        invariant
            k <= v@.len(),
            forall|j: int| k <= j < v@.len() ==> v@[j] != '.',
        decreases k,
    {
        k = k - 1;
    }
    // `k - 1` is the index of the last dot, if there is one.
    proof {
        lemma_last_dot(v@, k - 1);
    }
    if k <= 1 || !is_font_name(&v) {
        return None;
    }
    let mut out = String::new();
    let mut i: usize = 0;
    while i < k - 1
        invariant
            1 < k <= v@.len(),
            i <= k - 1,
            out@ == v@.take(i as int),
        decreases k - 1 - i,
    {
        push_char(&mut out, v[i]);
        proof {
            assert(v@.take(i as int + 1) =~= v@.take(i as int).push(v@[i as int]));
        }
        i = i + 1;
    }
    Some(out)
}

// ── The format panel's fonts ──────────────────────────────────────────────────

/// The font families the format panel offers, in its order.
pub open spec fn font_choices() -> Seq<Seq<char>> {
    seq!["Lora"@, "Newsreader"@, "Fraunces"@, "Inter"@, "IBM Plex Mono"@]
}

/// The position of `family` among the choices from `k` on, or 0 when it
/// is not among them.
pub open spec fn font_index_from(family: Seq<char>, k: int) -> int
    decreases font_choices().len() - k,
{
    if k < 0 || k >= font_choices().len() {
        0
    } else if font_choices()[k] == family {
        k
    } else {
        font_index_from(family, k + 1)
    }
}

proof fn lemma_font_index_range(family: Seq<char>, k: int)
    ensures
        0 <= font_index_from(family, k) < font_choices().len(),
    decreases font_choices().len() - k,
{
    if 0 <= k < font_choices().len() && font_choices()[k] != family {
        lemma_font_index_range(family, k + 1);
    }
}

fn same_chars(a: &Vec<char>, b: &Vec<char>) -> (r: bool)
    ensures
        r == (a@ == b@),
{
    if a.len() != b.len() {
        return false;
    }
    let mut i: usize = 0;
    while i < a.len()
        invariant
            a@.len() == b@.len(),
            i <= a@.len(),
            forall|j: int| 0 <= j < i ==> a@[j] == b@[j],
        decreases a@.len() - i,
    {
        if a[i] != b[i] {
            return false;
        }
        i = i + 1;
    }
    proof {
        assert(a@ =~= b@);
    }
    true
}

/// Where the format panel's family picker stands for `family`: its
/// position among the choices, or the first choice when it is not one.
pub fn font_index(family: &str) -> (i: u32)
    ensures
        i == font_index_from(family@, 0),
        i < font_choices().len(),
{
    let names: [&str; 5] = ["Lora", "Newsreader", "Fraunces", "Inter", "IBM Plex Mono"];
    let v = chars_of(family);
    let mut k: usize = 0;
    proof {
        lemma_font_index_range(family@, 0);
        assert(font_choices().len() == 5);
    }
    while k < 5
        invariant
            k <= 5,
            v@ == family@,
            names@.len() == 5,
            forall|j: int| 0 <= j < 5 ==> (#[trigger] names@[j])@ == font_choices()[j],
            font_index_from(family@, 0) == font_index_from(family@, k as int),
            0 <= font_index_from(family@, k as int) < 5,
        decreases 5 - k,
    {
        let w = chars_of(names[k]);
        if same_chars(&v, &w) {
            return k as u32;
        }
        k = k + 1;
    }
    0
}

} // verus!
