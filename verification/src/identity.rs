//! Activity keys: one string that names what is being used.
//!
//! A key is the application name, a colon, and a detail: the address of the
//! page where one is known, the window title otherwise. The colon is
//! reserved, so a key is taken apart again at its first colon.

use vstd::prelude::*;

verus! {

/// The parts of an activity key.
#[derive(Debug)]
pub struct KeyParts {
    pub app_name: String,
    pub detail: String,
    pub is_url: bool,
}

/// The parts of an activity key as mathematical values.
pub ghost struct KeyPartsView {
    pub app_name: Seq<char>,
    pub detail: Seq<char>,
    pub is_url: bool,
}

impl View for KeyParts {
    type V = KeyPartsView;

    open spec fn view(&self) -> KeyPartsView {
        KeyPartsView { app_name: self.app_name@, detail: self.detail@, is_url: self.is_url }
    }
}

/// The detail of a key: the address where there is one, else the title.
pub open spec fn detail_of(window_title: Seq<char>, url: Option<Seq<char>>) -> Seq<char> {
    match url {
        Some(u) => u,
        None => window_title,
    }
}

/// The key of an observation: name, colon, detail.
pub open spec fn spec_resolve(
    app_name: Seq<char>,
    window_title: Seq<char>,
    url: Option<Seq<char>>,
) -> Seq<char> {
    app_name.push(':') + detail_of(window_title, url)
}

/// A detail counts as an address exactly when it begins with `http`.
pub open spec fn is_http(detail: Seq<char>) -> bool {
    seq!['h', 't', 't', 'p'].is_prefix_of(detail)
}

/// `at` is the place of the first colon of `key`.
pub open spec fn is_first_colon(key: Seq<char>, at: int) -> bool {
    &&& 0 <= at < key.len()
    &&& key[at] == ':'
    &&& forall|j: int| 0 <= j < at ==> key[j] != ':'
}

/// The place of the first colon of a key that has one.
pub open spec fn first_colon(key: Seq<char>) -> int {
    choose|at: int| is_first_colon(key, at)
}

/// What a key falls into. Without a colon the whole key is the application
/// name and the detail reads `Unknown`.
pub open spec fn spec_decompose(key: Seq<char>) -> KeyPartsView {
    if key.contains(':') {
        let at = first_colon(key);
        let detail = key.subrange(at + 1, key.len() as int);
        KeyPartsView { app_name: key.subrange(0, at), detail, is_url: is_http(detail) }
    } else {
        KeyPartsView { app_name: key, detail: "Unknown"@, is_url: false }
    }
}

/// A key has at most one first colon.
pub proof fn lemma_first_colon_unique(key: Seq<char>, at: int)
    requires
        is_first_colon(key, at),
    ensures
        key.contains(':'),
        first_colon(key) == at,
{
    let chosen = first_colon(key);
    assert(is_first_colon(key, chosen));
    if chosen < at {
        assert(key[chosen] != ':');
    } else if at < chosen {
        assert(key[at] != ':');
    }
}

/// Taking a resolved key apart gives back the application name and the
/// detail it was made of, and tells an address from a title by the detail's
/// first letters, provided the application name holds no colon.
pub proof fn lemma_decompose_resolve(
    app_name: Seq<char>,
    window_title: Seq<char>,
    url: Option<Seq<char>>,
)
    requires
        !app_name.contains(':'),
    ensures
        spec_decompose(spec_resolve(app_name, window_title, url)) == (KeyPartsView {
            app_name,
            detail: detail_of(window_title, url),
            is_url: is_http(detail_of(window_title, url)),
        }),
{
    let detail = detail_of(window_title, url);
    let key = spec_resolve(app_name, window_title, url);
    let at = app_name.len() as int;
    assert(key[at] == ':');
    assert forall|j: int| 0 <= j < at implies key[j] != ':' by {
        assert(key[j] == app_name[j]);
        assert(app_name.contains(app_name[j]));
    }
    lemma_first_colon_unique(key, at);
    assert(key.subrange(0, at) =~= app_name);
    assert(key.subrange(at + 1, key.len() as int) =~= detail);
}

/// Makes the key of an observation.
pub fn resolve(app_name: &str, window_title: &str, url: Option<&str>) -> (key: String)
    ensures
        key@ == spec_resolve(
            app_name@,
            window_title@,
            match url {
                Some(u) => Some(u@),
                None => None,
            },
        ),
{
    let mut key = String::from_str(app_name);
    proof {
        reveal_strlit(":");
    }
    key.append(":");
    assert(key@ =~= app_name@.push(':'));
    match url {
        Some(u) => key.append(u),
        None => key.append(window_title),
    }
    key
}

/// Tells whether a detail begins with `http`.
pub fn has_http_prefix(detail: &str) -> (b: bool)
    ensures
        b == is_http(detail@),
{
    let n: usize = detail.unicode_len();
    if n < 4 {
        return false;
    }
    let b = detail.get_char(0) == 'h' && detail.get_char(1) == 't' && detail.get_char(2) == 't'
        && detail.get_char(3) == 'p';
    proof {
        let prefix = seq!['h', 't', 't', 'p'];
        if b {
            assert(prefix =~= detail@.subrange(0, 4));
        } else {
            if is_http(detail@) {
                let head = detail@.subrange(0, 4);
                assert(head[0] == 'h' && head[1] == 't' && head[2] == 't' && head[3] == 'p');
            }
        }
    }
    b
}

/// Takes a key apart at its first colon.
pub fn decompose(key: &str) -> (parts: KeyParts)
    ensures
        parts@ == spec_decompose(key@),
{
    let n: usize = key.unicode_len();
    let mut at: usize = 0;
    while at < n
        invariant
            at <= n,
            n == key@.len(),
            forall|j: int| 0 <= j < at ==> key@[j] != ':',
        ensures
            at < n ==> key@[at as int] == ':',
        decreases n - at,
    {
        if key.get_char(at) == ':' {
            break;
        }
        at += 1;
    }
    if at < n {
        proof {
            lemma_first_colon_unique(key@, at as int);
        }
        let app_name = String::from_str(key.substring_char(0, at));
        let rest = key.substring_char(at + 1, n);
        let is_url = has_http_prefix(rest);
        KeyParts { app_name, detail: String::from_str(rest), is_url }
    } else {
        assert(!key@.contains(':'));
        KeyParts { app_name: String::from_str(key), detail: String::from_str("Unknown"), is_url: false }
    }
}

} // verus!
