use vstd::prelude::*;

verus! {

/// The index of the first line feed in `s`, if any.
pub open spec fn is_first_newline(s: Seq<char>, i: int) -> bool {
    &&& 0 <= i < s.len()
    &&& s[i] == '\n'
    &&& forall|k: int| 0 <= k < i ==> s[k] != '\n'
}

/// The first line of a text, without its line ending (`\n` or `\r\n`); none
/// for an empty text.
pub open spec fn first_line_spec(s: Seq<char>) -> Option<Seq<char>> {
    if s.len() == 0 {
        None
    } else if exists|i: int| is_first_newline(s, i) {
        let i = choose|i: int| is_first_newline(s, i);
        if i > 0 && s[i - 1] == '\r' {
            Some(s.take(i - 1))
        } else {
            Some(s.take(i))
        }
    } else {
        Some(s)
    }
}

/// The token held by the contents of a credential cache file: its first line.
/// An empty file holds no token.
pub fn token_from_cache_contents(contents: &str) -> (r: Option<String>)
    ensures
        match first_line_spec(contents@) {
            Some(l) => r matches Some(t) && t@ == l,
            None => r is None,
        },
{
    let n = contents.unicode_len();
    if n == 0 {
        return None;
    }
    let mut i: usize = 0;
    while i < n
        invariant
            n == contents@.len(),
            i <= n,
            forall|k: int| 0 <= k < i ==> contents@[k] != '\n',
        decreases n - i,
    {
        if contents.get_char(i) == '\n' {
            proof {
                assert(is_first_newline(contents@, i as int));
                let j = choose|j: int| is_first_newline(contents@, j);
                assert(j == i as int);
            }
            let end = if i > 0 && contents.get_char(i - 1) == '\r' { i - 1 } else { i };
            let line = contents.substring_char(0, end);
            return Some(line.to_owned());
        }
        i = i + 1;
    }
    assert(contents@.take(n as int) =~= contents@);
    Some(contents.substring_char(0, n).to_owned())
}

/// The value of an `Authorization` header that presents `token`.
pub fn bearer_header(token: &str) -> (r: String)
    ensures
        r@ == "Bearer "@ + token@,
{
    String::from_str("Bearer ").concat(token)
}

} // verus!
