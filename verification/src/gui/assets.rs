//! The files of the browser's page.

use crate::lex::str_equal;
use crate::text::{chars_of, opt_text};
use std::io::Read;
use vstd::prelude::*;
use vstd::string::*;

verus! {

/// `s` with every `from` in it replaced, from left to right.
pub open spec fn replaced(s: Seq<char>, from: Seq<char>, to: Seq<char>) -> Seq<char>
    decreases s.len(),
{
    if s.len() == 0 {
        Seq::empty()
    } else if from.len() > 0 && from.len() <= s.len() && s.take(from.len() as int) == from {
        to + replaced(s.skip(from.len() as int), from, to)
    } else {
        seq![s[0]] + replaced(s.skip(1), from, to)
    }
}

/// `s` with every `from` in it replaced, from left to right.
pub fn replace_all(s: &str, from: &str, to: &str) -> (r: String)
    requires
        from@.len() > 0,
    ensures
        r@ == replaced(s@, from@, to@),
{
    let cs = chars_of(s);
    let f = chars_of(from);
    let mut r = String::new();
    let mut i: usize = 0;
    assert(cs@.skip(0) =~= cs@);
    assert(r@ + replaced(cs@, from@, to@) =~= replaced(s@, from@, to@));
    while i < cs.len()
        invariant
            cs@ == s@,
            f@ == from@,
            from@.len() > 0,
            i <= cs.len(),
            r@ + replaced(cs@.skip(i as int), from@, to@) == replaced(s@, from@, to@),
        decreases cs.len() - i,
    {
        let ghost rest = cs@.skip(i as int);
        let ghost before = r@;
        if f.len() <= cs.len() - i && starts_at(cs.as_slice(), f.as_slice(), i) {
            assert(rest.take(from@.len() as int) == from@);
            r.append(to);
            assert(rest.skip(from@.len() as int) =~= cs@.skip(i + f.len()));
            assert(r@ + replaced(cs@.skip(i + f.len()), from@, to@) =~= before + (to@ + replaced(
                rest.skip(from@.len() as int),
                from@,
                to@,
            )));
            i += f.len();
        } else {
            r.push(cs[i]);
            assert(rest.skip(1) =~= cs@.skip(i + 1));
            assert(r@ + replaced(cs@.skip(i + 1), from@, to@) =~= before + (seq![rest[0]]
                + replaced(rest.skip(1), from@, to@)));
            i += 1;
        }
    }
    assert(r@ + replaced(cs@.skip(i as int), from@, to@) =~= r@);
    r
}

fn starts_at(s: &[char], f: &[char], at: usize) -> (r: bool)
    requires
        at + f.len() <= s.len(),
    ensures
        r == (s@.skip(at as int).take(f@.len() as int) == f@),
{
    let mut j: usize = 0;
    while j < f.len()
        invariant
            j <= f.len(),
            at + f.len() <= s.len(),
            forall|k: int| 0 <= k < j ==> s@[at + k] == f@[k],
        decreases f.len() - j,
    {
        if s[at + j] != f[j] {
            assert(s@.skip(at as int).take(f@.len() as int)[j as int] != f@[j as int]);
            return false;
        }
        j += 1;
    }
    assert(s@.skip(at as int).take(f@.len() as int) =~= f@);
    true
}

/// The page, with the token of this launch and the nonce of this answer in it.
pub fn index_html(template: &str, token: &str, nonce: &str) -> (r: String)
    ensures
        r@ == replaced(
            replaced(template@, "__ZKV_TOKEN__"@, token@),
            "__ZKV_NONCE__"@,
            nonce@,
        ),
{
    proof {
        reveal_strlit("__ZKV_TOKEN__");
        reveal_strlit("__ZKV_NONCE__");
    }
    let with_token = replace_all(template, "__ZKV_TOKEN__", token);
    replace_all(with_token.as_str(), "__ZKV_NONCE__", nonce)
}

/// Whether a path names one of the page's style sheets.
pub open spec fn is_style(p: Seq<char>) -> bool {
    p == "styles.css"@ || p == "design-system/app.css"@ || p
        == "design-system/colors_and_type.css"@
}

/// Whether a path names one of the page's scripts.
pub open spec fn is_script(p: Seq<char>) -> bool {
    p == "api.js"@ || p == "forms.js"@ || p == "vendor/react.production.min.js"@ || p
        == "vendor/react-dom.production.min.js"@ || p == "vendor/lucide.min.js"@ || p
        == "js/icon.js"@ || p == "js/chrome.js"@ || p == "js/dashboard.js"@ || p == "js/keys.js"@
        || p == "js/writeflow.js"@ || p == "js/flows.js"@ || p == "js/discover.js"@ || p
        == "js/reference.js"@ || p == "js/app.js"@
}

/// Whether a path names one of the page's fonts.
pub open spec fn is_font(p: Seq<char>) -> bool {
    p == "fonts/ibm-plex-sans-latin-400-normal.woff2"@ || p
        == "fonts/ibm-plex-sans-latin-500-normal.woff2"@ || p
        == "fonts/ibm-plex-sans-latin-600-normal.woff2"@ || p
        == "fonts/ibm-plex-sans-latin-700-normal.woff2"@ || p
        == "fonts/ibm-plex-mono-latin-400-normal.woff2"@ || p
        == "fonts/ibm-plex-mono-latin-500-normal.woff2"@ || p
        == "fonts/ibm-plex-mono-latin-600-normal.woff2"@ || p
        == "fonts/ibm-plex-serif-latin-400-normal.woff2"@ || p
        == "fonts/ibm-plex-serif-latin-500-normal.woff2"@ || p
        == "fonts/ibm-plex-serif-latin-400-italic.woff2"@ || p
        == "fonts/ibm-plex-serif-latin-500-italic.woff2"@
}

/// The type of the file that a path names; none where it names none.
pub open spec fn asset_type(p: Seq<char>) -> Option<Seq<char>> {
    if is_style(p) {
        Some("text/css; charset=utf-8"@)
    } else if is_script(p) {
        Some("text/javascript; charset=utf-8"@)
    } else if p == "design-system/assets/logo-mark-dark.svg"@ {
        Some("image/svg+xml"@)
    } else if is_font(p) {
        Some("font/woff2"@)
    } else if p == "fonts/OFL.txt"@ {
        Some("text/plain; charset=utf-8"@)
    } else {
        None
    }
}

/// The type of the file that a path names, without the slash before it.
pub fn lookup(path: &str) -> (r: Option<&'static str>)
    ensures
        match r {
            Some(t) => asset_type(path@) == Some(t@),
            None => asset_type(path@) is None,
        },
{
    if str_equal(path, "styles.css") || str_equal(path, "design-system/app.css") || str_equal(
        path,
        "design-system/colors_and_type.css",
    ) {
        Some("text/css; charset=utf-8")
    } else if str_equal(path, "api.js") || str_equal(path, "forms.js") || str_equal(
        path,
        "vendor/react.production.min.js",
    ) || str_equal(path, "vendor/react-dom.production.min.js") || str_equal(
        path,
        "vendor/lucide.min.js",
    ) || str_equal(path, "js/icon.js") || str_equal(path, "js/chrome.js") || str_equal(
        path,
        "js/dashboard.js",
    ) || str_equal(path, "js/keys.js") || str_equal(path, "js/writeflow.js") || str_equal(
        path,
        "js/flows.js",
    ) || str_equal(path, "js/discover.js") || str_equal(path, "js/reference.js") || str_equal(
        path,
        "js/app.js",
    ) {
        Some("text/javascript; charset=utf-8")
    } else if str_equal(path, "design-system/assets/logo-mark-dark.svg") {
        Some("image/svg+xml")
    } else if str_equal(path, "fonts/ibm-plex-sans-latin-400-normal.woff2") || str_equal(
        path,
        "fonts/ibm-plex-sans-latin-500-normal.woff2",
    ) || str_equal(path, "fonts/ibm-plex-sans-latin-600-normal.woff2") || str_equal(
        path,
        "fonts/ibm-plex-sans-latin-700-normal.woff2",
    ) || str_equal(path, "fonts/ibm-plex-mono-latin-400-normal.woff2") || str_equal(
        path,
        "fonts/ibm-plex-mono-latin-500-normal.woff2",
    ) || str_equal(path, "fonts/ibm-plex-mono-latin-600-normal.woff2") || str_equal(
        path,
        "fonts/ibm-plex-serif-latin-400-normal.woff2",
    ) || str_equal(path, "fonts/ibm-plex-serif-latin-500-normal.woff2") || str_equal(
        path,
        "fonts/ibm-plex-serif-latin-400-italic.woff2",
    ) || str_equal(path, "fonts/ibm-plex-serif-latin-500-italic.woff2") {
        Some("font/woff2")
    } else if str_equal(path, "fonts/OFL.txt") {
        Some("text/plain; charset=utf-8")
    } else {
        None
    }
}

/// The text that a compressed file holds; none where it holds none.
pub uninterp spec fn inflated(gz: Seq<u8>) -> Option<Seq<char>>;

/// `flate2::read::GzDecoder`, read to its end as a text.
#[verifier::external_body]
fn gunzip(gz: &[u8]) -> (r: Option<String>)
    ensures
        opt_text(r) == inflated(gz@),
{
    let mut s = String::new();
    flate2::read::GzDecoder::new(gz).read_to_string(&mut s).ok().map(|_| s)
}

/// The licenses of the software that the browser is made of, kept compressed
/// until they are asked for.
#[derive(Clone, Debug, PartialEq, Eq)]
pub struct Licenses {
    bundle: Vec<u8>,
    text: Option<String>,
}

/// What is shown for a bundle, once it was inflated or could not be.
pub open spec fn license_text(inflated: Option<Seq<char>>) -> Seq<char> {
    match inflated {
        Some(t) => t,
        None => "Failed to decode the license bundle."@,
    }
}

/// What is shown for a bundle, once it was inflated or could not be.
pub fn text_or_fault(inflated_text: Option<String>) -> (r: String)
    ensures
        r@ == license_text(opt_text(inflated_text)),
{
    match inflated_text {
        Some(t) => t,
        None => "Failed to decode the license bundle.".to_owned(),
    }
}

impl Licenses {
    /// What is shown.
    pub closed spec fn shown(self) -> Seq<char> {
        license_text(inflated(self.bundle@))
    }

    /// What was inflated is what the bundle holds.
    pub closed spec fn wf(self) -> bool {
        self.text matches Some(t) ==> t@ == license_text(inflated(self.bundle@))
    }

    /// The licenses of a compressed bundle.
    pub fn new(bundle: Vec<u8>) -> (r: Licenses)
        ensures
            r.wf(),
            r.shown() == license_text(inflated(bundle@)),
    {
        Licenses { bundle, text: None }
    }

    /// The text of the licenses. It is inflated once.
    pub fn licenses_text(&mut self) -> (r: &str)
        requires
            old(self).wf(),
        ensures
            final(self).wf(),
            final(self).shown() == old(self).shown(),
            r@ == old(self).shown(),
    {
        if self.text.is_none() {
            let t = text_or_fault(gunzip(self.bundle.as_slice()));
            self.text = Some(t);
        }
        match &self.text {
            Some(t) => t.as_str(),
            None => "",
        }
    }
}

/// A placeholder is replaced wherever it stands between texts that do not begin it,
/// and a text without it stays as it is.
pub proof fn a_placeholder_is_replaced(before: Seq<char>, from: Seq<char>, to: Seq<char>, after: Seq<char>)
    requires
        from.len() > 0,
        forall|i: int| 0 <= i < before.len() ==> #[trigger] before[i] != from[0],
        forall|i: int| 0 <= i < after.len() ==> #[trigger] after[i] != from[0],
    ensures
        replaced(before + from + after, from, to) == before + to + after,
        replaced(before, from, to) == before,
    decreases before.len(),
{
    lemma_nothing_to_replace(before, from, to);
    lemma_nothing_to_replace(after, from, to);
    let s = before + from + after;
    if before.len() == 0 {
        assert(s.take(from.len() as int) =~= from);
        assert(s.skip(from.len() as int) =~= after);
        assert(replaced(s, from, to) =~= before + to + after);
    } else {
        let t = before.skip(1);
        assert forall|i: int| 0 <= i < t.len() implies #[trigger] t[i] != from[0] by {
            assert(before[i + 1] != from[0]);
        }
        a_placeholder_is_replaced(t, from, to, after);
        assert(s[0] == before[0] && before[0] != from[0]);
        if from.len() <= s.len() {
            assert(s.take(from.len() as int)[0] != from[0]);
        }
        assert(s.skip(1) =~= t + from + after);
        assert(replaced(s, from, to) =~= before + to + after);
    }
}

proof fn lemma_nothing_to_replace(s: Seq<char>, from: Seq<char>, to: Seq<char>)
    requires
        from.len() > 0,
        forall|i: int| 0 <= i < s.len() ==> #[trigger] s[i] != from[0],
    ensures
        replaced(s, from, to) == s,
    decreases s.len(),
{
    if s.len() > 0 {
        let t = s.skip(1);
        assert forall|i: int| 0 <= i < t.len() implies #[trigger] t[i] != from[0] by {
            assert(s[i + 1] != from[0]);
        }
        lemma_nothing_to_replace(t, from, to);
        assert(s[0] != from[0]);
        if from.len() <= s.len() {
            assert(s.take(from.len() as int)[0] != from[0]);
        }
        assert(seq![s[0]] + t =~= s);
    } else {
        assert(replaced(s, from, to) =~= s);
    }
}

} // verus!
