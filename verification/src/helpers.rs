//! Extracting a linked file path out of a bracketed markup link.

use vstd::prelude::*;

use crate::strings::chars_to_string;

verus! {

/// Characters that may not appear inside a link path.
pub open spec fn link_path_char(c: char) -> bool {
    c != ']' && c != '[' && c != '<' && c != '>' && c != '\n'
}

/// The parse of a `file` property value.  The value must open with
/// `[[file:`, the path runs to the first `]`, is nonempty and free of
/// bracket characters, and is followed either by `]` (no description) or by
/// `[` (a bracketed description).
/// Helper for `parse_file_link_spec`: scan for the closing bracket.
pub open spec fn scan_path(s: Seq<char>, i: int) -> Option<int>
    decreases s.len() - i,
{
    if i >= s.len() {
        None
    } else if s[i] == ']' {
        Some(i)
    } else if !link_path_char(s[i]) {
        None
    } else {
        scan_path(s, i + 1)
    }
}

pub open spec fn parse_file_link_spec(s: Seq<char>) -> Option<Seq<char>> {
    if s.len() < 9 || s.subrange(0, 7) != seq!['[', '[', 'f', 'i', 'l', 'e', ':'] {
        None
    } else {
        match scan_path(s, 7) {
            None => None,
            Some(j) => {
                if j == 7 {
                    None
                } else if j + 1 < s.len() && (s[j + 1] == ']' || s[j + 1] == '[') {
                    Some(s.subrange(7, j))
                } else {
                    None
                }
            },
        }
    }
}

/// Extract the path out of a bracketed file link, if the text is one.
///
/// `[[file:test.org][linked blogpost]]` gives `test.org`; text that is not a
/// file link at its start gives `None`.
pub fn parse_file_link(link: &str) -> (r: Option<String>)
    ensures
        match r {
            Some(p) => parse_file_link_spec(link@) == Some(p@),
            None => parse_file_link_spec(link@) is None,
        },
{
    let n = link.unicode_len();
    if n < 9 {
        return None;
    }
    let open: [char; 7] = ['[', '[', 'f', 'i', 'l', 'e', ':'];
    let mut k: usize = 0;
    while k < 7
        invariant
            k <= 7,
            n == link@.len() && n >= 9,
            open@ == seq!['[', '[', 'f', 'i', 'l', 'e', ':'],
            forall|j: int| 0 <= j < k ==> link@[j] == open@[j],
        decreases 7 - k,
    {
        if link.get_char(k) != open[k] {
            proof {
                assert(link@.subrange(0, 7)[k as int] != open@[k as int]);
            }
            return None;
        }
        k = k + 1;
    }
    proof {
        assert(link@.subrange(0, 7) =~= open@);
    }
    let mut i: usize = 7;
    while i < n
        invariant
            7 <= i <= n,
            n == link@.len() && n >= 9,
            link@.subrange(0, 7) == seq!['[', '[', 'f', 'i', 'l', 'e', ':'],
            forall|j: int| 7 <= j < i ==> link_path_char(#[trigger] link@[j]) && link@[j] != ']',
            scan_path(link@, 7) == scan_path(link@, i as int),
        decreases n - i,
    {
        let c = link.get_char(i);
        if c == ']' {
            if i == 7 {
                return None;
            }
            if i + 1 < n {
                let after = link.get_char(i + 1);
                if after == ']' || after == '[' {
                    let mut path: Vec<char> = Vec::new();
                    let mut j: usize = 7;
                    while j < i
                        invariant
                            7 <= j <= i < n,
                            n == link@.len(),
                            path@ == link@.subrange(7, j as int),
                        decreases i - j,
                    {
                        path.push(link.get_char(j));
                        proof {
                            assert(link@.subrange(7, j + 1 as int) =~= link@.subrange(
                                7,
                                j as int,
                            ).push(link@[j as int]));
                        }
                        j = j + 1;
                    }
                    proof {
                        assert(scan_path(link@, i as int) == Some(i as int));
                        assert(link@.subrange(0, 7) == seq!['[', '[', 'f', 'i', 'l', 'e', ':']);
                        assert(parse_file_link_spec(link@) == Some(link@.subrange(7, i as int)));
                    }
                    return Some(chars_to_string(&path));
                }
            }
            return None;
        }
        if c == '[' || c == '<' || c == '>' || c == '\n' {
            return None;
        }
        i = i + 1;
    }
    None
}

} // verus!
