//! The key-value text format of Steam's library files: quoted keys and
//! values, and groups in braces that nest.

use vstd::prelude::*;
use crate::tree::{path_clone, path_eq};

verus! {

/// A key with the groups around it, outermost first, and its value.
pub type Pairs = Seq<(Seq<Seq<char>>, Seq<char>)>;

/// Where the reading of a text stands.
pub struct Scan {
    /// Inside a quoted string.
    pub in_quotes: bool,
    /// Behind a backslash.
    pub escape: bool,
    /// The key that waits for its value or for its group.
    pub key: Seq<char>,
    /// The string that is being read.
    pub value: Seq<char>,
    /// The groups that are open, outermost first.
    pub path: Seq<Seq<char>>,
    /// The pairs read so far.
    pub pairs: Pairs,
}

/// The state before the first character.
pub open spec fn scan_start() -> Scan {
    Scan {
        in_quotes: false,
        escape: false,
        key: Seq::empty(),
        value: Seq::empty(),
        path: Seq::empty(),
        pairs: Seq::empty(),
    }
}

/// What the character behind a backslash stands for, if anything.
pub open spec fn unescaped(c: char) -> Option<char> {
    if c == 'n' {
        Some('\n')
    } else if c == 't' {
        Some('\t')
    } else if c == '\\' {
        Some('\\')
    } else if c == '"' {
        Some('"')
    } else {
        None
    }
}

/// The state after one more character. A quote that closes a string ends a
/// key if none is waiting, and else ends the value of the waiting key, which
/// gives a pair. An opening brace outside a string makes the waiting key a
/// group, a closing brace leaves the innermost group.
pub open spec fn scan_char(s: Scan, c: char) -> Scan {
    if c == '"' && !s.escape {
        if !s.in_quotes {
            Scan { in_quotes: true, ..s }
        } else if s.key.len() == 0 {
            Scan { in_quotes: false, key: s.value, value: Seq::empty(), ..s }
        } else {
            Scan {
                in_quotes: false,
                key: Seq::empty(),
                value: Seq::empty(),
                pairs: s.pairs.push((s.path.push(s.key), s.value)),
                ..s
            }
        }
    } else if c == '{' && !s.in_quotes {
        Scan { path: s.path.push(s.key), key: Seq::empty(), ..s }
    } else if c == '}' && !s.in_quotes {
        Scan {
            path: if s.path.len() > 0 {
                s.path.drop_last()
            } else {
                s.path
            },
            ..s
        }
    } else if s.escape {
        Scan {
            escape: false,
            value: match unescaped(c) {
                Some(u) => s.value.push(u),
                None => s.value,
            },
            ..s
        }
    } else if c == '\\' {
        Scan { escape: true, ..s }
    } else if s.in_quotes {
        Scan { value: s.value.push(c), ..s }
    } else {
        s
    }
}

/// The state after the first `k` characters of `text`.
pub open spec fn scan(text: Seq<char>, k: int) -> Scan
    decreases k,
{
    if k <= 0 || k > text.len() {
        scan_start()
    } else {
        scan_char(scan(text, k - 1), text[k - 1])
    }
}

/// The pairs that `text` holds, in the order in which their values end.
pub open spec fn parsed(text: Seq<char>) -> Pairs {
    scan(text, text.len() as int).pairs
}

/// The value of the last pair among the first `k` whose key is `key`.
pub open spec fn last_value(pairs: Pairs, key: Seq<Seq<char>>, k: int) -> Option<Seq<char>>
    decreases k,
{
    if k <= 0 || k > pairs.len() {
        None
    } else if pairs[k - 1].0 == key {
        Some(pairs[k - 1].1)
    } else {
        last_value(pairs, key, k - 1)
    }
}

/// `String::push` of std: the character goes to the end of the string.
#[verifier::external_body]
pub(crate) fn push_char(s: &mut String, c: char)
    ensures
        final(s)@ == old(s)@.push(c),
{
    s.push(c)
}

/// Reads a text. Returns its pairs: each key with the names of the groups
/// around it, outermost first, and its value.
pub fn parse(text: &str) -> (r: Vec<(Vec<String>, String)>)
    ensures
        r.deep_view() == parsed(text@),
{
    let mut in_quotes = false;
    let mut escape = false;
    let mut current_key = String::new();
    let mut current_value = String::new();
    let mut path: Vec<String> = Vec::new();
    let mut kv_pairs: Vec<(Vec<String>, String)> = Vec::new();
    let ghost chars = text@;
    assert(path.deep_view() =~= Seq::<Seq<char>>::empty());
    assert(kv_pairs.deep_view() =~= Seq::<(Seq<Seq<char>>, Seq<char>)>::empty());
    for c in iter: text.chars()
        invariant
            iter.seq() == chars,
            scan(chars, iter.index() as int) == (Scan {
                in_quotes,
                escape,
                key: current_key@,
                value: current_value@,
                path: path.deep_view(),
                pairs: kv_pairs.deep_view(),
            }),
    {
        let ghost before = scan(chars, iter.index() as int);
        assert(scan(chars, iter.index() + 1) == scan_char(before, c));
        if c == '"' && !escape {
            if !in_quotes {
                in_quotes = true;
            } else if current_key.as_str().unicode_len() == 0 {
                current_key = current_value;
                current_value = String::new();
                in_quotes = false;
            } else {
                let mut full = path_clone(&path);
                full.push(current_key);
                assert(full.deep_view() =~= before.path.push(before.key));
                kv_pairs.push((full, current_value));
                assert(kv_pairs.deep_view() =~= before.pairs.push(
                    (before.path.push(before.key), before.value),
                ));
                current_key = String::new();
                current_value = String::new();
                in_quotes = false;
            }
        } else if c == '{' && !in_quotes {
            path.push(current_key);
            assert(path.deep_view() =~= before.path.push(before.key));
            current_key = String::new();
        } else if c == '}' && !in_quotes {
            assert(path.deep_view().len() == path.len());
            if path.len() > 0 {
                path.pop();
                assert(path.deep_view() =~= before.path.drop_last());
            }
        } else if escape {
            if c == 'n' {
                push_char(&mut current_value, '\n');
            } else if c == 't' {
                push_char(&mut current_value, '\t');
            } else if c == '\\' {
                push_char(&mut current_value, '\\');
            } else if c == '"' {
                push_char(&mut current_value, '"');
            }
            escape = false;
        } else if c == '\\' {
            escape = true;
        } else if in_quotes {
            push_char(&mut current_value, c);
        }
    }
    kv_pairs
}

/// The value that a map filled with `pairs` in their order holds for `key`:
/// that of the last pair with this key.
pub fn get<'a>(pairs: &'a Vec<(Vec<String>, String)>, key: &Vec<String>) -> (r: Option<&'a String>)
    ensures
        match last_value(pairs.deep_view(), key.deep_view(), pairs.len() as int) {
            Some(v) => r is Some && r->0@ == v,
            None => r is None,
        },
{
    let mut k: usize = pairs.len();
    while k > 0
        invariant
            0 <= k <= pairs.len(),
            last_value(pairs.deep_view(), key.deep_view(), pairs.len() as int) == last_value(
                pairs.deep_view(),
                key.deep_view(),
                k as int,
            ),
        decreases k,
    {
        assert(pairs.deep_view()[k - 1] == (pairs@[k - 1].0.deep_view(), pairs@[k - 1].1@));
        if path_eq(&pairs[k - 1].0, key) {
            return Some(&pairs[k - 1].1);
        }
        k -= 1;
    }
    None
}

} // verus!
