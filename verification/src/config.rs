//! Client configuration: the RPC provider URL and the paths of the files the
//! client keeps under its home directory.  Reading the home directory from
//! the environment and touching the file system belong to the surrounding
//! program; this module holds the pure parts.

use vstd::prelude::*;

verus! {

/// The client configuration: the fullnode RPC URL.
pub struct Config {
    pub url: String,
}

/// A character with the Unicode white-space property: what trimming a URL
/// removes at either end.
pub open spec fn is_trim_space(c: char) -> bool {
    c == '\u{9}' || c == '\u{a}' || c == '\u{b}' || c == '\u{c}' || c == '\u{d}' || c == ' '
        || c == '\u{85}' || c == '\u{a0}' || c == '\u{1680}' || ('\u{2000}' <= c
        && c <= '\u{200a}') || c == '\u{2028}' || c == '\u{2029}' || c == '\u{202f}'
        || c == '\u{205f}' || c == '\u{3000}'
}

fn is_trim_space_exec(c: char) -> (r: bool)
    ensures
        r == is_trim_space(c),
{
    c == '\u{9}' || c == '\u{a}' || c == '\u{b}' || c == '\u{c}' || c == '\u{d}' || c == ' '
        || c == '\u{85}' || c == '\u{a0}' || c == '\u{1680}' || ('\u{2000}' <= c
        && c <= '\u{200a}') || c == '\u{2028}' || c == '\u{2029}' || c == '\u{202f}'
        || c == '\u{205f}' || c == '\u{3000}'
}

/// The first index at or after which a character that is not whitespace
/// stands, scanning from `i`.
pub open spec fn from_left(s: Seq<char>, i: int) -> int
    decreases s.len() - i when 0 <= i <= s.len()
{
    if i >= s.len() {
        i
    } else if is_trim_space(s[i]) {
        from_left(s, i + 1)
    } else {
        i
    }
}

/// The index after the last character at or before `i - 1` that does not
/// satisfy `trailing`: whitespace first, then slashes.
pub open spec fn from_right(s: Seq<char>, i: int, slashes: bool) -> int
    decreases i when 0 <= i <= s.len()
{
    if i <= 0 {
        0
    } else if (if slashes {
        s[i - 1] == '/'
    } else {
        is_trim_space(s[i - 1])
    }) {
        from_right(s, i - 1, slashes)
    } else {
        i
    }
}

/// A URL as the configuration stores it: surrounding Unicode whitespace
/// removed, then every trailing slash removed.
pub open spec fn canon_url(s: Seq<char>) -> Seq<char> {
    let a = from_left(s, 0);
    let b = from_right(s, s.len() as int, false);
    if a <= b {
        let t = s.subrange(a, b);
        t.subrange(0, from_right(t, t.len() as int, true))
    } else {
        Seq::empty()
    }
}

proof fn lemma_from_left(s: Seq<char>, i: int)
    requires
        0 <= i <= s.len(),
    ensures
        i <= from_left(s, i) <= s.len(),
    decreases s.len() - i,
{
    if i < s.len() && is_trim_space(s[i]) {
        lemma_from_left(s, i + 1);
    }
}

proof fn lemma_from_right(s: Seq<char>, i: int, slashes: bool)
    requires
        0 <= i <= s.len(),
    ensures
        0 <= from_right(s, i, slashes) <= i,
    decreases i,
{
    if i > 0 && (if slashes {
        s[i - 1] == '/'
    } else {
        is_trim_space(s[i - 1])
    }) {
        lemma_from_right(s, i - 1, slashes);
    }
}

fn from_left_exec(s: &Vec<char>, i: usize) -> (r: usize)
    requires
        i <= s@.len(),
    ensures
        r as int == from_left(s@, i as int),
        i <= r <= s@.len(),
    decreases s@.len() - i,
{
    if i < s.len() && is_trim_space_exec(s[i]) {
        from_left_exec(s, i + 1)
    } else {
        i
    }
}

fn from_right_exec(s: &Vec<char>, i: usize, slashes: bool) -> (r: usize)
    requires
        i <= s@.len(),
    ensures
        r as int == from_right(s@, i as int, slashes),
        r <= i,
    decreases i,
{
    if i > 0 && (if slashes {
        s[i - 1] == '/'
    } else {
        is_trim_space_exec(s[i - 1])
    }) {
        from_right_exec(s, i - 1, slashes)
    } else {
        i
    }
}

/// Canonicalizes a URL string.
pub fn canon_url_exec(url: &str) -> (r: String)
    ensures
        r@ == canon_url(url@),
{
    let cs = crate::text::str_to_chars(url);
    let a = from_left_exec(&cs, 0);
    let b = from_right_exec(&cs, cs.len(), false);
    if a <= b {
        let t = crate::typedesc::subvec(&cs, a, b);
        let e = from_right_exec(&t, t.len(), true);
        let t2 = crate::typedesc::subvec(&t, 0, e);
        crate::text::chars_to_string(&t2)
    } else {
        String::new()
    }
}

impl Config {
    /// Replaces the stored URL with the canonical form of the given one.
    /// Writing the configuration back to disk is the caller's business.
    pub fn update(&mut self, url: &str)
        ensures
            final(self).url@ == canon_url(url@),
    {
        self.url = canon_url_exec(url);
    }
}

impl Default for Config {
    /// An empty configuration: no RPC provider set yet.
    fn default() -> (r: Self)
        ensures
            r.url@ == Seq::<char>::empty(),
    {
        Config { url: String::new() }
    }
}

/// Appends one path component to a directory path.
fn join_path(dir: &str, name: &Vec<char>) -> (r: String)
    ensures
        r@ == dir@ + seq!['/'] + name@,
{
    let mut cs = crate::text::str_to_chars(dir);
    cs.push('/');
    let mut n2 = crate::typedesc::subvec(name, 0, name.len());
    cs.append(&mut n2);
    proof {
        assert(cs@ =~= dir@ + seq!['/'] + name@);
    }
    crate::text::chars_to_string(&cs)
}

/// The path of the configuration file under the client home directory.
pub fn get_config_path(home_dir: &str) -> (r: String)
    ensures
        r@ == home_dir@ + seq!['/'] + seq!['c', 'o', 'n', 'f', 'i', 'g', '.', 't', 'o', 'm', 'l'],
{
    let name = vec!['c', 'o', 'n', 'f', 'i', 'g', '.', 't', 'o', 'm', 'l'];
    proof {
        assert(name@ =~= seq!['c', 'o', 'n', 'f', 'i', 'g', '.', 't', 'o', 'm', 'l']);
    }
    join_path(home_dir, &name)
}

/// The path of the keypair file under the client home directory.
pub fn get_keypair_path(home_dir: &str) -> (r: String)
    ensures
        r@ == home_dir@ + seq!['/'] + seq!['k', 'e', 'y', 'p', 'a', 'i', 'r'],
{
    let name = vec!['k', 'e', 'y', 'p', 'a', 'i', 'r'];
    proof {
        assert(name@ =~= seq!['k', 'e', 'y', 'p', 'a', 'i', 'r']);
    }
    join_path(home_dir, &name)
}

/// The path of the passphrase hash file under the client home directory.
pub fn get_hash_path(home_dir: &str) -> (r: String)
    ensures
        r@ == home_dir@ + seq!['/'] + seq!['h', 'a', 's', 'h'],
{
    let name = vec!['h', 'a', 's', 'h'];
    proof {
        assert(name@ =~= seq!['h', 'a', 's', 'h']);
    }
    join_path(home_dir, &name)
}

} // verus!
