//! Guessing the address of a page from what a browser shows in its window
//! title.
//!
//! A browser is known by its executable's name. Where its title holds
//! something that looks like an address, that is taken for the address of
//! the page; otherwise none is known, which is common and no fault.

use crate::identity::is_http;
use crate::log::text_view;
use vstd::prelude::*;

verus! {

/// `needle` stands in `hay` at place `at`.
pub open spec fn occurs_at(hay: Seq<char>, needle: Seq<char>, at: int) -> bool {
    0 <= at && at + needle.len() <= hay.len() && hay.subrange(at, at + needle.len()) =~= needle
}

/// `needle` stands somewhere in `hay`.
pub open spec fn has_sub(hay: Seq<char>, needle: Seq<char>) -> bool {
    exists|at: int| occurs_at(hay, needle, at)
}

/// `at` is the first place where `needle` stands in `hay`.
pub open spec fn is_first_occurrence(hay: Seq<char>, needle: Seq<char>, at: int) -> bool {
    occurs_at(hay, needle, at) && forall|j: int| 0 <= j < at ==> !occurs_at(hay, needle, j)
}

/// The first place where `needle` stands in a `hay` that holds it.
pub open spec fn first_occurrence(hay: Seq<char>, needle: Seq<char>) -> int {
    choose|at: int| is_first_occurrence(hay, needle, at)
}

/// There is at most one first place.
pub proof fn lemma_first_occurrence_unique(hay: Seq<char>, needle: Seq<char>, at: int)
    requires
        is_first_occurrence(hay, needle, at),
    ensures
        has_sub(hay, needle),
        first_occurrence(hay, needle) == at,
{
    let chosen = first_occurrence(hay, needle);
    assert(is_first_occurrence(hay, needle, chosen));
    if chosen < at {
        assert(!occurs_at(hay, needle, chosen));
    } else if at < chosen {
        assert(!occurs_at(hay, needle, at));
    }
}

/// A text looks like an address when it begins with `http` or holds `://`.
pub open spec fn looks_like_url(text: Seq<char>) -> bool {
    is_http(text) || has_sub(text, "://"@)
}

/// Where the last part of `text` begins when `text` is cut at each `sep`,
/// the cuts found from left to right and never overlapping. `start` is
/// where the part being read begins and `scan` is how far the reading has
/// come; the whole text is read from `(0, 0)`.
pub open spec fn last_part_start(text: Seq<char>, sep: Seq<char>, start: int, scan: int) -> int
    decreases text.len() - scan,
{
    if sep.len() == 0 || scan < 0 || scan + sep.len() > text.len() {
        start
    } else if occurs_at(text, sep, scan) {
        last_part_start(text, sep, scan + sep.len(), scan + sep.len())
    } else {
        last_part_start(text, sep, start, scan + 1)
    }
}

/// The address in the title of a Chromium browser: the part behind the last
/// ` - `, where the title has such a cut and that part looks like an
/// address.
pub open spec fn chromium_url(title: Seq<char>) -> Option<Seq<char>> {
    let start = last_part_start(title, " - "@, 0, 0);
    let last = title.subrange(start, title.len() as int);
    if start > 0 && looks_like_url(last) {
        Some(last)
    } else {
        None
    }
}

/// What stands before the first `suffix` in `title`, where `title` holds
/// `suffix` and that part looks like an address.
pub open spec fn url_before(title: Seq<char>, suffix: Seq<char>) -> Option<Seq<char>> {
    if has_sub(title, suffix) {
        let part = title.subrange(0, first_occurrence(title, suffix));
        if looks_like_url(part) {
            Some(part)
        } else {
            None
        }
    } else {
        None
    }
}

/// The address in the title of Firefox: what stands before the browser's
/// name, tried with a hyphen, a bar and a long dash before the name, in
/// that order.
pub open spec fn firefox_url(title: Seq<char>) -> Option<Seq<char>> {
    match url_before(title, " - Mozilla Firefox"@) {
        Some(u) => Some(u),
        None => match url_before(title, " | Mozilla Firefox"@) {
            Some(u) => Some(u),
            None => url_before(title, " \u{2014} Mozilla Firefox"@),
        },
    }
}

/// The address for a window, given the executable's name in lower case.
pub open spec fn browser_url(app_lower: Seq<char>, title: Seq<char>) -> Option<Seq<char>> {
    if has_sub(app_lower, "chrome"@) || has_sub(app_lower, "msedge"@) || has_sub(
        app_lower,
        "brave"@,
    ) {
        chromium_url(title)
    } else if has_sub(app_lower, "firefox"@) {
        firefox_url(title)
    } else {
        None
    }
}

/// What `str::to_lowercase` makes of a text.
pub uninterp spec fn lowercase_of(text: Seq<char>) -> Seq<char>;

/// `str::to_lowercase`: the text in lower case, as the standard library
/// defines it for every character. The result depends on the text alone.
#[verifier::external_body]
fn lowercase(text: &str) -> (lower: String)
    ensures
        lower@ == lowercase_of(text@),
{
    text.to_lowercase()
}

/// The characters of a text.
pub fn chars_of(text: &str) -> (chars: Vec<char>)
    ensures
        chars@ == text@,
{
    let n: usize = text.unicode_len();
    let mut chars: Vec<char> = Vec::new();
    let mut i: usize = 0;
    while i < n
        invariant
            i <= n,
            n == text@.len(),
            chars@ == text@.take(i as int),
        decreases n - i,
    {
        chars.push(text.get_char(i));
        assert(chars@ =~= text@.take(i + 1));
        i += 1;
    }
    assert(text@.take(n as int) =~= text@);
    chars
}

/// Tells whether `needle` stands in `hay` at `at`.
pub fn occurs(hay: &Vec<char>, needle: &Vec<char>, at: usize) -> (b: bool)
    ensures
        b == occurs_at(hay@, needle@, at as int),
{
    if needle.len() > hay.len() || at > hay.len() - needle.len() {
        return false;
    }
    let mut k: usize = 0;
    while k < needle.len()
        invariant
            k <= needle.len(),
            at + needle.len() <= hay.len(),
            forall|j: int| 0 <= j < k ==> hay@[at + j] == needle@[j],
        decreases needle.len() - k,
    {
        if hay[at + k] != needle[k] {
            proof {
                let part = hay@.subrange(at as int, at + needle.len());
                assert(part[k as int] != needle@[k as int]);
            }
            return false;
        }
        k += 1;
    }
    assert(hay@.subrange(at as int, at + needle.len()) =~= needle@);
    true
}

/// Finds the first place where `needle` stands in `hay`.
pub fn find_sub(hay: &Vec<char>, needle: &Vec<char>) -> (found: Option<usize>)
    ensures
        match found {
            Some(at) => is_first_occurrence(hay@, needle@, at as int),
            None => !has_sub(hay@, needle@),
        },
{
    if needle.len() > hay.len() {
        return None;
    }
    let last: usize = hay.len() - needle.len();
    let mut at: usize = 0;
    while at <= last
        invariant
            at <= last + 1,
            last == hay.len() - needle.len(),
            forall|j: int| 0 <= j < at ==> !occurs_at(hay@, needle@, j),
        decreases last + 1 - at,
    {
        if occurs(hay, needle, at) {
            return Some(at);
        }
        at += 1;
    }
    None
}

/// Tells whether a text looks like an address.
pub fn is_url_like(text: &str) -> (b: bool)
    ensures
        b == looks_like_url(text@),
{
    let chars = chars_of(text);
    let http = chars.len() >= 4 && chars[0] == 'h' && chars[1] == 't' && chars[2] == 't'
        && chars[3] == 'p';
    proof {
        let prefix = seq!['h', 't', 't', 'p'];
        if http {
            assert(prefix =~= text@.subrange(0, 4));
        } else if is_http(text@) {
            let head = text@.subrange(0, 4);
            assert(head[0] == 'h' && head[1] == 't' && head[2] == 't' && head[3] == 'p');
        }
    }
    if http {
        return true;
    }
    let slashes = chars_of("://");
    match find_sub(&chars, &slashes) {
        Some(_) => true,
        None => false,
    }
}

/// The address in the title of a Chromium browser, if the title shows one.
pub fn extract_chromium_url(window_title: &str) -> (url: Option<String>)
    ensures
        text_view(url) == chromium_url(window_title@),
{
    let chars = chars_of(window_title);
    let sep = chars_of(" - ");
    let n: usize = chars.len();
    let mut start: usize = 0;
    let mut scan: usize = 0;
    while sep.len() > 0 && sep.len() <= n && scan <= n - sep.len()
        invariant
            start <= scan <= n,
            n == chars.len(),
            last_part_start(chars@, sep@, 0, 0) == last_part_start(
                chars@,
                sep@,
                start as int,
                scan as int,
            ),
        decreases n - scan,
    {
        if occurs(&chars, &sep, scan) {
            scan = scan + sep.len();
            start = scan;
        } else {
            scan = scan + 1;
        }
    }
    if start == 0 {
        return None;
    }
    let last = window_title.substring_char(start, n);
    if is_url_like(last) {
        Some(String::from_str(last))
    } else {
        None
    }
}

/// What stands before the first `suffix` in `title`, if it looks like an
/// address.
pub fn extract_url_before(title: &str, suffix: &str) -> (url: Option<String>)
    ensures
        text_view(url) == url_before(title@, suffix@),
{
    let chars = chars_of(title);
    let pattern = chars_of(suffix);
    match find_sub(&chars, &pattern) {
        Some(at) => {
            proof {
                lemma_first_occurrence_unique(title@, suffix@, at as int);
            }
            let part = title.substring_char(0, at);
            if is_url_like(part) {
                Some(String::from_str(part))
            } else {
                None
            }
        },
        None => None,
    }
}

/// The address in the title of Firefox, if the title shows one.
pub fn extract_firefox_url(window_title: &str) -> (url: Option<String>)
    ensures
        text_view(url) == firefox_url(window_title@),
{
    match extract_url_before(window_title, " - Mozilla Firefox") {
        Some(u) => Some(u),
        None => match extract_url_before(window_title, " | Mozilla Firefox") {
            Some(u) => Some(u),
            None => extract_url_before(window_title, " \u{2014} Mozilla Firefox"),
        },
    }
}

/// Tells whether `needle` stands somewhere in `hay`.
pub fn contains_text(hay: &Vec<char>, needle: &str) -> (b: bool)
    ensures
        b == has_sub(hay@, needle@),
{
    let pattern = chars_of(needle);
    match find_sub(hay, &pattern) {
        Some(_) => true,
        None => false,
    }
}

/// The address for a window of the application whose name, in lower case,
/// is `app_lower`: Chrome, Edge and Brave are read as Chromium browsers,
/// Firefox in its own way, and any other application has none.
pub fn url_for_browser(app_lower: &str, window_title: &str) -> (url: Option<String>)
    ensures
        text_view(url) == browser_url(app_lower@, window_title@),
{
    let name = chars_of(app_lower);
    if contains_text(&name, "chrome") || contains_text(&name, "msedge") || contains_text(
        &name,
        "brave",
    ) {
        extract_chromium_url(window_title)
    } else if contains_text(&name, "firefox") {
        extract_firefox_url(window_title)
    } else {
        None
    }
}

/// The address for a window of the application `app_name`, whose name is
/// read without regard to case.
pub fn extract_browser_url(app_name: &str, window_title: &str) -> (url: Option<String>)
    ensures
        text_view(url) == browser_url(lowercase_of(app_name@), window_title@),
{
    let lower = lowercase(app_name);
    url_for_browser(lower.as_str(), window_title)
}

} // verus!
