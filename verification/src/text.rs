use vstd::prelude::*;

verus! {

/// Is `i` the position of the first occurrence of `c` in `s`?
pub open spec fn is_first_index(s: Seq<char>, c: char, i: int) -> bool {
    &&& 0 <= i < s.len()
    &&& s[i] == c
    &&& forall|j: int| 0 <= j < i ==> s[j] != c
}

/// `str::split_once` with a one-character pattern: the text before and after
/// the first occurrence of `c`, or `None` when `c` does not occur.
pub open spec fn split_once_spec(s: Seq<char>, c: char) -> Option<(Seq<char>, Seq<char>)> {
    if exists|i: int| is_first_index(s, c, i) {
        let i = choose|i: int| is_first_index(s, c, i);
        Some((s.take(i), s.skip(i + 1)))
    } else {
        None
    }
}

/// The text before the first `c`, or all of `s` (the `unwrap_or((s, ""))` idiom).
pub open spec fn before_first(s: Seq<char>, c: char) -> Seq<char> {
    match split_once_spec(s, c) {
        Some(p) => p.0,
        None => s,
    }
}

/// The text after the first `c`, or the empty text.
pub open spec fn after_first(s: Seq<char>, c: char) -> Seq<char> {
    match split_once_spec(s, c) {
        Some(p) => p.1,
        None => Seq::empty(),
    }
}

/// `str::split` with a one-character pattern: the pieces between the
/// occurrences of `c`, always at least one.
pub open spec fn split_spec(s: Seq<char>, c: char) -> Seq<Seq<char>>
    decreases s.len(),
{
    match split_once_spec(s, c) {
        Some(p) => {
            proof {
                lemma_split_once_shorter(s, c);
            }
            seq![p.0] + split_spec(p.1, c)
        },
        None => seq![s],
    }
}

pub proof fn lemma_split_once_shorter(s: Seq<char>, c: char)
    ensures
        split_once_spec(s, c) matches Some(p) ==> p.1.len() < s.len() && p.0.len() < s.len()
            && s == p.0 + seq![c] + p.1,
{
    if exists|i: int| is_first_index(s, c, i) {
        let i = choose|i: int| is_first_index(s, c, i);
        assert(s =~= s.take(i) + seq![c] + s.skip(i + 1));
    }
}

/// Position of the first `c` in `s`.
pub fn find_char(s: &str, c: char) -> (r: Option<usize>)
    ensures
        r matches Some(i) ==> is_first_index(s@, c, i as int),
        r is None ==> forall|j: int| 0 <= j < s@.len() ==> s@[j] != c,
{
    let n = s.unicode_len();
    let mut i: usize = 0;
    while i < n
        invariant
            n == s@.len(),
            i <= n,
            forall|j: int| 0 <= j < i ==> s@[j] != c,
        decreases n - i,
    {
        if s.get_char(i) == c {
            return Some(i);
        }
        i = i + 1;
    }
    None
}

pub proof fn lemma_first_index_unique(s: Seq<char>, c: char, i: int, k: int)
    requires
        is_first_index(s, c, i),
        is_first_index(s, c, k),
    ensures
        i == k,
{
    if i < k {
        assert(s[i] != c);
    } else if k < i {
        assert(s[k] != c);
    }
}

/// `s.split_once(c)` as owned pieces.
pub fn split_once(s: &str, c: char) -> (r: Option<(String, String)>)
    ensures
        match split_once_spec(s@, c) {
            Some(p) => r matches Some(q) && q.0@ == p.0 && q.1@ == p.1,
            None => r is None,
        },
{
    match find_char(s, c) {
        Some(i) => {
            let n = s.unicode_len();
            let before = s.substring_char(0, i).to_owned();
            let after = s.substring_char(i + 1, n).to_owned();
            proof {
                let k = choose|k: int| is_first_index(s@, c, k);
                lemma_first_index_unique(s@, c, i as int, k);
                assert(before@ =~= s@.take(i as int));
                assert(after@ =~= s@.skip(i + 1));
            }
            Some((before, after))
        },
        None => None,
    }
}

/// Does `s` begin with `prefix`? (`str::starts_with`)
pub fn starts_with(s: &str, prefix: &str) -> (r: bool)
    ensures
        r == (prefix@.len() <= s@.len() && s@.take(prefix@.len() as int) == prefix@),
{
    let n = s.unicode_len();
    let m = prefix.unicode_len();
    if m > n {
        return false;
    }
    let mut i: usize = 0;
    while i < m
        invariant
            n == s@.len(),
            m == prefix@.len(),
            m <= n,
            i <= m,
            forall|j: int| 0 <= j < i ==> s@[j] == prefix@[j],
        decreases m - i,
    {
        if s.get_char(i) != prefix.get_char(i) {
            assert(s@.take(m as int)[i as int] != prefix@[i as int]);
            return false;
        }
        i = i + 1;
    }
    assert(s@.take(m as int) =~= prefix@);
    true
}

/// Character-wise equality of two strings.
pub fn str_eq(a: &str, b: &str) -> (r: bool)
    ensures
        r == (a@ == b@),
{
    let n = a.unicode_len();
    let m = b.unicode_len();
    if n != m {
        return false;
    }
    let mut i: usize = 0;
    while i < n
        invariant
            n == a@.len(),
            m == b@.len(),
            n == m,
            i <= n,
            forall|j: int| 0 <= j < i ==> a@[j] == b@[j],
        decreases n - i,
    {
        if a.get_char(i) != b.get_char(i) {
            return false;
        }
        i = i + 1;
    }
    assert(a@ =~= b@);
    true
}

/// The pieces joined with `sep` between consecutive ones (`[T]::join`).
pub open spec fn join_spec(pieces: Seq<Seq<char>>, sep: Seq<char>) -> Seq<char>
    decreases pieces.len(),
{
    if pieces.len() == 0 {
        Seq::empty()
    } else if pieces.len() == 1 {
        pieces[0]
    } else {
        join_spec(pieces.drop_last(), sep) + sep + pieces.last()
    }
}

/// The views of a list of strings.
pub open spec fn strings_view(v: Seq<String>) -> Seq<Seq<char>> {
    v.map_values(|s: String| s@)
}

/// `pieces.join("&")`.
pub fn join_with_ampersand(pieces: &Vec<String>) -> (r: String)
    ensures
        r@ == join_spec(strings_view(pieces@), "&"@),
{
    proof {
        reveal_strlit("&");
    }
    let ghost views = strings_view(pieces@);
    let mut r = String::new();
    let mut i: usize = 0;
    while i < pieces.len()
        invariant
            i <= pieces@.len(),
            views == strings_view(pieces@),
            r@ == join_spec(views.take(i as int), "&"@),
        decreases pieces@.len() - i,
    {
        assert(views.take(i + 1).drop_last() =~= views.take(i as int));
        if i > 0 {
            r.append("&");
        }
        r.append(pieces[i].as_str());
        i = i + 1;
    }
    assert(views.take(pieces@.len() as int) =~= views);
    r
}

/// What `str::to_lowercase` returns for a text holding a character beyond
/// ASCII: Unicode lower-case mapping, not restated here.
pub uninterp spec fn unicode_lowercase(s: Seq<char>) -> Seq<char>;

/// The lower case of one ASCII character: `A`..=`Z` become `a`..=`z`, any
/// other character stays.
pub open spec fn ascii_lower_char(c: char) -> char {
    if 'A' <= c <= 'Z' {
        ((c as int) + 32) as char
    } else {
        c
    }
}

/// The lower case of a text: character by character for ASCII text, the
/// Unicode mapping otherwise.
pub open spec fn lowercase_spec(s: Seq<char>) -> Seq<char> {
    if vstd::utf8::is_ascii_chars(s) {
        s.map_values(|c: char| ascii_lower_char(c))
    } else {
        unicode_lowercase(s)
    }
}

/// ASCII lower-casing of a text: `A`..=`Z` become `a`..=`z`, every other
/// character stays.
pub open spec fn ascii_lower(s: Seq<char>) -> Seq<char> {
    s.map_values(|c: char| ascii_lower_char(c))
}

/// Is the ASCII lower case of `s` the text `lower`?
pub fn ascii_lower_eq(s: &str, lower: &str) -> (r: bool)
    ensures
        r == (ascii_lower(s@) == lower@),
{
    let n = s.unicode_len();
    if n != lower.unicode_len() {
        proof {
            assert(ascii_lower(s@).len() != lower@.len());
        }
        return false;
    }
    let mut i: usize = 0;
    while i < n
        invariant
            n == s@.len(),
            n == lower@.len(),
            i <= n,
            forall|j: int| 0 <= j < i ==> ascii_lower_char(#[trigger] s@[j]) == lower@[j],
        decreases n - i,
    {
        let c = s.get_char(i);
        let d = lower.get_char(i);
        let same = if 'A' <= c && c <= 'Z' {
            (c as u32) + 32 == (d as u32)
        } else {
            c == d
        };
        if !same {
            proof {
                assert(ascii_lower(s@)[i as int] != lower@[i as int]);
            }
            return false;
        }
        i = i + 1;
    }
    proof {
        assert(ascii_lower(s@) =~= lower@);
    }
    true
}

/// `str::to_lowercase`. For ASCII text the result maps `A`..=`Z` to
/// `a`..=`z` and keeps every other character, as the Unicode lower-case
/// mapping does on ASCII; for other text the contract only names the result.
#[verifier::external_body]
pub(crate) fn to_lowercase(s: &str) -> (r: String)
    ensures
        vstd::utf8::is_ascii_chars(s@) ==> r@ == s@.map_values(|c: char| ascii_lower_char(c)),
        !vstd::utf8::is_ascii_chars(s@) ==> r@ == unicode_lowercase(s@),
{
    s.to_lowercase()
}

/// `s.split(c)` as owned pieces.
pub fn split_on(s: &str, c: char) -> (r: Vec<String>)
    ensures
        strings_view(r@) == split_spec(s@, c),
{
    let mut pieces: Vec<String> = Vec::new();
    let mut rest: String = s.to_owned();
    loop
        invariant
            strings_view(pieces@) + split_spec(rest@, c) == split_spec(s@, c),
        decreases rest@.len(),
    {
        proof {
            lemma_split_once_shorter(rest@, c);
        }
        match split_once(rest.as_str(), c) {
            Some((before, after)) => {
                proof {
                    assert(strings_view(pieces@.push(before)) =~= strings_view(pieces@).push(
                        before@,
                    ));
                    assert(split_spec(rest@, c) == seq![before@] + split_spec(after@, c));
                    assert(strings_view(pieces@.push(before)) + split_spec(after@, c) =~= strings_view(
                        pieces@,
                    ) + split_spec(rest@, c));
                }
                pieces.push(before);
                rest = after;
            },
            None => {
                proof {
                    assert(strings_view(pieces@.push(rest)) =~= strings_view(pieces@) + split_spec(
                        rest@,
                        c,
                    ));
                }
                pieces.push(rest);
                return pieces;
            },
        }
    }
}

} // verus!
