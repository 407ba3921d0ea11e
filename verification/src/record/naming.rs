//! Type names as they are written in generated code.
//!
//! A type name is parsed as a Rust type with `syn` and printed back as tokens separated by
//! spaces; then the paths of `Box`, `String`, `Vec`, `Option` and `Result` are shortened to
//! their last segment, those types being in scope in any Rust module.
//!
//! The shortening works on the printed tokens, as `proc_macro2` prints them outside of a
//! procedural macro: `a :: b`, with a space on each side of `::`.

use vstd::prelude::*;

verus! {

/// The most marks that may open a nested type or expression (see `nesting_marks`) in a type name.
pub const MAX_NESTING_MARKS: usize = 16;

/// The longest type name, in characters.
pub const MAX_TYPE_NAME_LEN: usize = 512;

/// Whether `c` may open a nested type or expression: `(`, `[`, `<`, `{`, `&`, `*`, `-`, `!`,
/// `|` or `.`.
pub open spec fn is_nesting_mark(c: char) -> bool {
    ||| c == '(' || c == '[' || c == '<' || c == '{' || c == '&'
    ||| c == '*' || c == '-' || c == '!' || c == '|' || c == '.'
}

/// The number of characters of `text` that may open a nested type or expression; with the length
/// of `text`, it bounds how deep the type nests.
pub open spec fn nesting_marks(text: Seq<char>) -> nat
    decreases text.len(),
{
    if text.len() == 0 {
        0
    } else {
        nesting_marks(text.drop_last()) + if is_nesting_mark(text.last()) {
            1nat
        } else {
            0nat
        }
    }
}

/// A type name short enough and nesting few enough times to be parsed.
pub open spec fn parsable_size(text: Seq<char>) -> bool {
    text.len() <= MAX_TYPE_NAME_LEN && nesting_marks(text) <= MAX_NESTING_MARKS
}

/// Whether `text` is short enough and nests few enough times to be parsed.
pub fn within_parse_bounds(text: &str) -> (r: bool)
    ensures
        r == parsable_size(text@),
{
    let n = text.unicode_len();
    if n > MAX_TYPE_NAME_LEN {
        return false;
    }
    let mut count: usize = 0;
    let mut i: usize = 0;
    while i < n
        invariant
            n == text@.len(),
            n <= MAX_TYPE_NAME_LEN,
            i <= n,
            count == nesting_marks(text@.take(i as int)),
            count <= MAX_NESTING_MARKS,
        decreases n - i,
    {
        let c = text.get_char(i);
        proof {
            assert(text@.take(i + 1).drop_last() =~= text@.take(i as int));
            assert(text@.take(i + 1).last() == c);
        }
        if c == '(' || c == '[' || c == '<' || c == '{' || c == '&' || c == '*' || c == '-' || c == '!' || c == '|'
            || c == '.' {
            if count == MAX_NESTING_MARKS {
                proof {
                    assert(is_nesting_mark(c));
                    assert(nesting_marks(text@.take(i + 1)) == count + 1);
                    lemma_nesting_marks_prefix(text@, i + 1, n as int);
                    assert(text@.take(n as int) =~= text@);
                }
                return false;
            }
            count = count + 1;
        }
        i = i + 1;
    }
    proof {
        assert(text@.take(n as int) =~= text@);
    }
    true
}

/// A text holds at least as many nesting marks as any of its prefixes.
pub proof fn lemma_nesting_marks_prefix(text: Seq<char>, i: int, j: int)
    requires
        0 <= i <= j <= text.len(),
    ensures
        nesting_marks(text.take(i)) <= nesting_marks(text.take(j)),
    decreases j - i,
{
    if i < j {
        lemma_nesting_marks_prefix(text, i, j - 1);
        assert(text.take(j).drop_last() =~= text.take(j - 1));
    }
    if j == text.len() {
        assert(text.take(j) =~= text);
    }
}

/// Whether parsing `text` as a Rust type with `syn` and printing it back may give `outcome`: the
/// printed tokens, or `None` when `syn` refuses the text. It is a relation, not a function: the
/// printer that `proc_macro2` uses depends on the process.
pub uninterp spec fn type_tokens_outcome(text: Seq<char>, outcome: Option<Seq<char>>) -> bool;

/// Parses `text` as a Rust type with `syn::parse_str::<syn::Type>`, and prints the tokens of the
/// type with `quote::ToTokens::to_token_stream` and `to_string`; `None` when `syn` refuses the
/// text.
///
/// `syn` parses nested types and expressions by recursion, with no limit of its own, hence the
/// bounds on the length of the text and on the marks that open a nested type or expression.
/// Claimed: the answer is one of the possible outcomes for `text` (`type_tokens_outcome`).
/// Nothing more is claimed of the printed tokens: `proc_macro2` prints them with the compiler's
/// printer inside a procedural macro and with its own printer elsewhere, and the two space tokens
/// differently.
#[verifier::external_body]
fn parse_type_tokens(text: &str) -> (r: Option<String>)
    requires
        parsable_size(text@),
    ensures
        type_tokens_outcome(
            text@,
            match r {
                Some(tokens) => Some(tokens@),
                None => None,
            },
        ),
{
    match syn::parse_str::<syn::Type>(text) {
        Ok(syn_type) => Some(quote::ToTokens::to_token_stream(&syn_type).to_string()),
        Err(_) => None,
    }
}

/// The path prefixes that are dropped: `alloc::boxed::`, `alloc::string::`, `alloc::vec::`,
/// `core::option::` and `core::result::`, as printed tokens.
pub open spec fn std_prefix(p: int) -> Seq<char> {
    if p == 0 {
        "alloc :: boxed :: "@
    } else if p == 1 {
        "alloc :: string :: "@
    } else if p == 2 {
        "alloc :: vec :: "@
    } else if p == 3 {
        "core :: option :: "@
    } else {
        "core :: result :: "@
    }
}

/// The type names that are kept: `Box`, `String`, `Vec`, `Option` and `Result`.
pub open spec fn std_last(p: int) -> Seq<char> {
    if p == 0 {
        "Box"@
    } else if p == 1 {
        "String"@
    } else if p == 2 {
        "Vec"@
    } else if p == 3 {
        "Option"@
    } else {
        "Result"@
    }
}

/// The whole path of the `p`-th type.
pub open spec fn std_path(p: int) -> Seq<char> {
    std_prefix(p) + std_last(p)
}

/// `s` is found in `t` at `i`.
pub open spec fn found_at(t: Seq<char>, i: int, s: Seq<char>) -> bool {
    0 <= i && i + s.len() <= t.len() && t.subrange(i, i + s.len()) == s
}

/// Token `::` followed by a space, at `k`, itself after a space.
pub open spec fn colons_at(t: Seq<char>, k: int) -> bool {
    0 <= k && k + 4 <= t.len() && t[k] == ' ' && t[k + 1] == ':' && t[k + 2] == ':' && t[k + 3] == ' '
}

/// The token `w`, whole, and a space come just before `i`.
pub open spec fn after_token(t: Seq<char>, i: int, w: Seq<char>) -> bool {
    let k = i - w.len() - 1;
    &&& found_at(t, k, w)
    &&& i <= t.len()
    &&& t[i - 1] == ' '
    &&& (k == 0 || t[k - 1] == ' ')
}

/// A path at `i` names a trait rather than a type: it comes after `as` (in a qualified path),
/// `dyn`, `impl`, `+` or `?` (in bounds).
pub open spec fn trait_position(t: Seq<char>, i: int) -> bool {
    ||| after_token(t, i, "as"@)
    ||| after_token(t, i, "dyn"@)
    ||| after_token(t, i, "impl"@)
    ||| after_token(t, i, "+"@)
    ||| after_token(t, i, "?"@)
}

/// A type path starts at `i`: at the beginning, after a space or an opening delimiter, not after
/// a `::` token, and not where a trait is named.
pub open spec fn path_start(t: Seq<char>, i: int) -> bool {
    &&& i == 0 || (0 < i <= t.len() && (t[i - 1] == ' ' || t[i - 1] == '(' || t[i - 1] == '['))
    &&& !(3 <= i <= t.len() && t[i - 3] == ':' && t[i - 2] == ':' && t[i - 1] == ' ')
    &&& !trait_position(t, i)
}

/// An identifier ends at `j`: at the end, or before a space or a closing delimiter.
pub open spec fn word_end(t: Seq<char>, j: int) -> bool {
    j == t.len() || (0 <= j < t.len() && (t[j] == ' ' || t[j] == ')' || t[j] == ']'))
}

/// Whether the path goes on with another segment after position `k`, the generic arguments
/// `< .. >` of a segment (after `::` or not) being skipped; `depth` counts the angle brackets
/// left open (the `>` of `->` is no bracket).
pub open spec fn continued_from(t: Seq<char>, k: int, depth: nat) -> bool
    decreases t.len() - k,
{
    if k < 0 {
        false
    } else if depth > 0 {
        if k >= t.len() {
            false
        } else if t[k] == '<' {
            continued_from(t, k + 1, depth + 1)
        } else if t[k] == '>' && !(k > 0 && t[k - 1] == '-') {
            continued_from(t, k + 1, (depth - 1) as nat)
        } else {
            continued_from(t, k + 1, depth)
        }
    } else if k + 2 <= t.len() && t[k] == ' ' && t[k + 1] == '<' {
        continued_from(t, k + 2, 1)
    } else if colons_at(t, k) && k + 5 <= t.len() && t[k + 4] == '<' {
        continued_from(t, k + 5, 1)
    } else {
        colons_at(t, k)
    }
}

/// The whole path of the `p`-th type starts at `i`, without anything before it and without
/// another segment after it.
pub open spec fn std_path_at(t: Seq<char>, i: int, p: int) -> bool {
    &&& std_path(p).len() > 0
    &&& found_at(t, i, std_path(p))
    &&& path_start(t, i)
    &&& word_end(t, i + std_path(p).len())
    &&& !continued_from(t, i + std_path(p).len(), 0)
}

/// The first of the five types whose whole path is at `i`.
pub open spec fn std_path_kind(t: Seq<char>, i: int) -> Option<int> {
    if std_path_at(t, i, 0) {
        Some(0)
    } else if std_path_at(t, i, 1) {
        Some(1)
    } else if std_path_at(t, i, 2) {
        Some(2)
    } else if std_path_at(t, i, 3) {
        Some(3)
    } else if std_path_at(t, i, 4) {
        Some(4)
    } else {
        None
    }
}

/// The tokens from `i` on, each whole path of the five types being replaced by its last segment.
pub open spec fn shortened_from(t: Seq<char>, i: int) -> Seq<char>
    decreases t.len() - i,
{
    if i < 0 || i >= t.len() {
        Seq::empty()
    } else {
        match std_path_kind(t, i) {
            Some(p) => std_last(p) + shortened_from(t, i + std_path(p).len()),
            None => seq![t[i]] + shortened_from(t, i + 1),
        }
    }
}

/// The tokens `t` with each whole path of the five types replaced by its last segment.
pub open spec fn shortened(t: Seq<char>) -> Seq<char> {
    shortened_from(t, 0)
}

fn chars_of(s: &str) -> (r: Vec<char>)
    ensures
        r@ == s@,
{
    let n = s.unicode_len();
    let mut r: Vec<char> = Vec::new();
    let mut i: usize = 0;
    while i < n
        invariant
            n == s@.len(),
            i <= n,
            r@ == s@.take(i as int),
        decreases n - i,
    {
        r.push(s.get_char(i));
        i = i + 1;
        proof {
            assert(r@ =~= s@.take(i as int));
        }
    }
    proof {
        assert(s@.take(n as int) =~= s@);
    }
    r
}

fn found_in(t: &Vec<char>, i: usize, s: &str) -> (r: bool)
    ensures
        r == found_at(t@, i as int, s@),
{
    let n = s.unicode_len();
    if i > t.len() || n > t.len() - i {
        return false;
    }
    let mut k: usize = 0;
    while k < n
        invariant
            n == s@.len(),
            i + n <= t.len(),
            k <= n,
            forall|m: int| 0 <= m < k ==> t@[i + m] == s@[m],
        decreases n - k,
    {
        if t[i + k] != s.get_char(k) {
            proof {
                assert(t@.subrange(i as int, i + n)[k as int] != s@[k as int]);
            }
            return false;
        }
        k = k + 1;
    }
    proof {
        assert(t@.subrange(i as int, i + n) =~= s@);
    }
    true
}

fn prefix_str(p: usize) -> (r: &'static str)
    ensures
        r@ == std_prefix(p as int),
{
    if p == 0 {
        "alloc :: boxed :: "
    } else if p == 1 {
        "alloc :: string :: "
    } else if p == 2 {
        "alloc :: vec :: "
    } else if p == 3 {
        "core :: option :: "
    } else {
        "core :: result :: "
    }
}

fn last_str(p: usize) -> (r: &'static str)
    ensures
        r@ == std_last(p as int),
{
    if p == 0 {
        "Box"
    } else if p == 1 {
        "String"
    } else if p == 2 {
        "Vec"
    } else if p == 3 {
        "Option"
    } else {
        "Result"
    }
}

fn is_after_token(t: &Vec<char>, i: usize, w: &str) -> (r: bool)
    requires
        i <= t@.len(),
    ensures
        r == after_token(t@, i as int, w@),
{
    let n = w.unicode_len();
    if n >= i {
        return false;
    }
    let k = i - n - 1;
    found_in(t, k, w) && t[i - 1] == ' ' && (k == 0 || t[k - 1] == ' ')
}

fn is_trait_position(t: &Vec<char>, i: usize) -> (r: bool)
    requires
        i <= t@.len(),
    ensures
        r == trait_position(t@, i as int),
{
    is_after_token(t, i, "as") || is_after_token(t, i, "dyn") || is_after_token(t, i, "impl") || is_after_token(
        t,
        i,
        "+",
    ) || is_after_token(t, i, "?")
}

fn is_path_start(t: &Vec<char>, i: usize) -> (r: bool)
    requires
        i <= t@.len(),
    ensures
        r == path_start(t@, i as int),
{
    let after = i == 0 || t[i - 1] == ' ' || t[i - 1] == '(' || t[i - 1] == '[';
    let after_colons = i >= 3 && t[i - 3] == ':' && t[i - 2] == ':' && t[i - 1] == ' ';
    after && !after_colons && !is_trait_position(t, i)
}

fn is_word_end(t: &Vec<char>, j: usize) -> (r: bool)
    requires
        j <= t@.len(),
    ensures
        r == word_end(t@, j as int),
{
    j == t.len() || t[j] == ' ' || t[j] == ')' || t[j] == ']'
}

fn has_colons(t: &Vec<char>, k: usize) -> (r: bool)
    ensures
        r == colons_at(t@, k as int),
{
    k <= t.len() && 4 <= t.len() - k && t[k] == ' ' && t[k + 1] == ':' && t[k + 2] == ':' && t[k + 3] == ' '
}

fn is_continued(t: &Vec<char>, j: usize) -> (r: bool)
    requires
        j <= t@.len(),
    ensures
        r == continued_from(t@, j as int, 0),
{
    let n = t.len();
    let mut k = j;
    let mut depth: usize = 0;
    loop
        invariant
            n == t@.len(),
            j <= k <= n,
            depth <= k,
            continued_from(t@, k as int, depth as nat) == continued_from(t@, j as int, 0),
        decreases n - k,
    {
        if depth > 0 {
            if k >= n {
                return false;
            }
            if t[k] == '<' {
                depth = depth + 1;
            } else if t[k] == '>' && !(k > 0 && t[k - 1] == '-') {
                depth = depth - 1;
            }
            k = k + 1;
        } else if 2 <= n - k && t[k] == ' ' && t[k + 1] == '<' {
            k = k + 2;
            depth = 1;
        } else if has_colons(t, k) && 5 <= n - k && t[k + 4] == '<' {
            k = k + 5;
            depth = 1;
        } else {
            return has_colons(t, k);
        }
    }
}

fn std_path_length(t: &Vec<char>, i: usize, p: usize) -> (r: Option<usize>)
    requires
        i < t@.len(),
        p < 5,
    ensures
        match r {
            Some(len) => std_path_at(t@, i as int, p as int) && len == std_path(p as int).len(),
            None => !std_path_at(t@, i as int, p as int),
        },
{
    let prefix = prefix_str(p);
    let last = last_str(p);
    let prefix_len = prefix.unicode_len();
    let last_len = last.unicode_len();
    if prefix_len > t.len() - i || last_len > t.len() - i - prefix_len {
        return None;
    }
    let len = prefix_len + last_len;
    let j = i + len;
    proof {
        let path = std_path(p as int);
        assert(path.len() == len);
        assert(path.subrange(0, prefix_len as int) =~= prefix@);
        assert(path.subrange(prefix_len as int, len as int) =~= last@);
        assert(found_at(t@, i as int, path) == (found_at(t@, i as int, prefix@) && found_at(
            t@,
            i + prefix_len,
            last@,
        ))) by {
            if found_at(t@, i as int, prefix@) && found_at(t@, i + prefix_len, last@) {
                assert(t@.subrange(i as int, j as int) =~= prefix@ + last@);
            }
            if found_at(t@, i as int, path) {
                assert(t@.subrange(i as int, i + prefix_len) =~= path.subrange(0, prefix_len as int));
                assert(t@.subrange(i + prefix_len, j as int) =~= path.subrange(prefix_len as int, len as int));
            }
        }
    }
    if len > 0 && found_in(t, i, prefix) && found_in(t, i + prefix_len, last) && is_path_start(t, i) && is_word_end(
        t,
        j,
    ) && !is_continued(t, j) {
        Some(len)
    } else {
        None
    }
}

fn std_path_kind_at(t: &Vec<char>, i: usize) -> (r: Option<(usize, usize)>)
    requires
        i < t@.len(),
    ensures
        match r {
            Some((p, len)) => std_path_kind(t@, i as int) == Some(p as int) && len == std_path(p as int).len(),
            None => std_path_kind(t@, i as int) is None,
        },
{
    let mut p: usize = 0;
    while p < 5
        invariant
            i < t@.len(),
            p <= 5,
            forall|q: int| 0 <= q < p ==> !std_path_at(t@, i as int, q),
        decreases 5 - p,
    {
        match std_path_length(t, i, p) {
            Some(len) => {
                return Some((p, len));
            },
            None => {},
        }
        p = p + 1;
    }
    None
}

/// Shortens the printed tokens of a type: each whole path of `Box`, `String`, `Vec`, `Option`
/// and `Result` is replaced by its last segment, wherever it stands in the type as a type (not as
/// a trait, after `as`, `dyn`, `impl`, `+` or `?`).
pub fn shorten_type_tokens(tokens: &str) -> (r: String)
    ensures
        r@ == shortened(tokens@),
{
    let t = chars_of(tokens);
    let n = t.len();
    let mut out = String::new();
    let mut start: usize = 0;
    let mut i: usize = 0;
    while i < n
        invariant
            n == t@.len(),
            t@ == tokens@,
            start <= i <= n,
            shortened(t@) == out@ + t@.subrange(start as int, i as int) + shortened_from(t@, i as int),
        decreases n - i,
    {
        match std_path_kind_at(&t, i) {
            Some((p, len)) => {
                let piece = tokens.substring_char(start, i);
                out.append(piece);
                out.append(last_str(p));
                proof {
                    assert(shortened_from(t@, i as int) == std_last(p as int) + shortened_from(t@, i + len));
                    assert(t@.subrange(i + len, i + len) =~= Seq::<char>::empty());
                    assert(shortened(t@) =~= out@ + t@.subrange(i + len, i + len) + shortened_from(t@, i + len));
                }
                i = i + len;
                start = i;
            },
            None => {
                proof {
                    assert(shortened_from(t@, i as int) == seq![t@[i as int]] + shortened_from(t@, i + 1));
                    assert(t@.subrange(start as int, i + 1) =~= t@.subrange(start as int, i as int) + seq![t@[i as int]]);
                    assert(shortened(t@) =~= out@ + t@.subrange(start as int, i + 1) + shortened_from(t@, i + 1));
                }
                i = i + 1;
            },
        }
    }
    let rest = tokens.substring_char(start, n);
    out.append(rest);
    proof {
        assert(shortened_from(t@, n as int) == Seq::<char>::empty());
        assert(shortened(t@) =~= out@);
    }
    out
}

/// Gives the name of a type as it is written in generated code: the type is parsed, printed as
/// tokens separated by spaces, and the paths of `Box`, `String`, `Vec`, `Option` and `Result`
/// are shortened (see `shorten_type_tokens`).
///
/// `None` when `type_path` is longer than `MAX_TYPE_NAME_LEN`, holds more than
/// `MAX_NESTING_MARKS` marks that may open a nested type or expression, or is not a Rust type.
pub fn truc_dynamic_type_name(type_path: &str) -> (r: Option<String>)
    ensures
        !parsable_size(type_path@) ==> r is None,
        r matches Some(name) ==> exists|tokens: Seq<char>|
            type_tokens_outcome(type_path@, Some(tokens)) && name@ == #[trigger] shortened(tokens),
        r is None ==> !parsable_size(type_path@) || type_tokens_outcome(type_path@, None),
{
    if !within_parse_bounds(type_path) {
        return None;
    }
    match parse_type_tokens(type_path) {
        Some(tokens) => Some(shorten_type_tokens(tokens.as_str())),
        None => None,
    }
}

} // verus!
