//! Helpers on relative resource paths, held as strings: the extension of a path,
//! case-insensitive extension comparison, and sibling file names.
use vstd::prelude::*;
use vstd::string::*;

verus! {

/// A character that separates the components of a path.
pub open spec fn is_separator(c: char) -> bool {
    c == '/'
}

/// `p` without its trailing separators.
pub open spec fn trim_trailing(p: Seq<char>) -> Seq<char>
    decreases p.len(),
{
    if p.len() > 0 && is_separator(p.last()) {
        trim_trailing(p.drop_last())
    } else {
        p
    }
}

/// The last component of `q` is `..`.
pub open spec fn ends_with_parent(q: Seq<char>) -> bool {
    q.len() >= 2 && q[q.len() - 1] == '.' && q[q.len() - 2] == '.' && last_separator(q) == q.len() - 3
}

/// Index of the last separator of `p`, or -1 when there is none.
pub open spec fn last_separator(p: Seq<char>) -> int
    decreases p.len(),
{
    if p.len() == 0 {
        -1
    } else if is_separator(p.last()) {
        p.len() - 1
    } else {
        last_separator(p.drop_last())
    }
}

/// Index of the last dot of `p`, or -1 when there is none.
pub open spec fn last_dot(p: Seq<char>) -> int
    decreases p.len(),
{
    if p.len() == 0 {
        -1
    } else if p.last() == '.' {
        p.len() - 1
    } else {
        last_dot(p.drop_last())
    }
}

/// A path has an extension when its last component (trailing separators
/// ignored) holds a dot that is not the component's first character, and the
/// component is not `..`.
pub open spec fn has_extension(p: Seq<char>) -> bool {
    let q = trim_trailing(p);
    last_dot(q) > last_separator(q) + 1 && !ends_with_parent(q)
}

/// The characters after the last dot of the last component (empty when there is
/// no extension).
pub open spec fn extension_of(p: Seq<char>) -> Seq<char> {
    let q = trim_trailing(p);
    if has_extension(p) {
        q.subrange(last_dot(q) + 1, q.len() as int)
    } else {
        Seq::empty()
    }
}

/// The code of a character with ASCII upper case letters folded to lower case.
pub open spec fn lower_code(c: char) -> u32 {
    if 65 <= (c as u32) && (c as u32) <= 90 {
        (c as u32 + 32) as u32
    } else {
        c as u32
    }
}

/// Two extensions are equal up to ASCII case.
pub open spec fn same_extension(a: Seq<char>, b: Seq<char>) -> bool {
    &&& a.len() == b.len()
    &&& forall|i: int| 0 <= i < a.len() ==> #[trigger] lower_code(a[i]) == lower_code(b[i])
}

proof fn lemma_last_positions_step(p: Seq<char>, i: int)
    requires
        0 <= i < p.len(),
    ensures
        last_separator(p.take(i + 1)) == (if is_separator(p[i]) {
            i
        } else {
            last_separator(p.take(i))
        }),
        last_dot(p.take(i + 1)) == (if p[i] == '.' {
            i
        } else {
            last_dot(p.take(i))
        }),
{
    assert(p.take(i + 1).drop_last() =~= p.take(i));
    assert(p.take(i + 1).last() == p[i]);
}

proof fn lemma_last_positions_bounds(p: Seq<char>)
    ensures
        -1 <= last_separator(p) < p.len(),
        -1 <= last_dot(p) < p.len(),
        last_dot(p) >= 0 ==> p[last_dot(p)] == '.',
    decreases p.len(),
{
    if p.len() > 0 {
        lemma_last_positions_bounds(p.drop_last());
    }
}

/// Returns one plus the positions of the last separator and of the last dot of
/// `path` (zero stands for none).
fn last_positions(path: &str) -> (r: (usize, usize))
    ensures
        r.0 == last_separator(path@) + 1,
        r.1 == last_dot(path@) + 1,
{
    let n = path.unicode_len();
    let mut sep: usize = 0;
    let mut dot: usize = 0;
    let mut i: usize = 0;
    while i < n
        invariant
            n == path@.len(),
            0 <= i <= n,
            sep == last_separator(path@.take(i as int)) + 1,
            dot == last_dot(path@.take(i as int)) + 1,
        decreases n - i,
    {
        proof {
            lemma_last_positions_step(path@, i as int);
        }
        let c = path.get_char(i);
        if c == '/' {
            sep = i + 1;
        }
        if c == '.' {
            dot = i + 1;
        }
        i = i + 1;
    }
    assert(path@.take(n as int) =~= path@);
    (sep, dot)
}

/// The length of `path` without its trailing separators.
fn trimmed_len(path: &str) -> (r: usize)
    ensures
        r <= path@.len(),
        trim_trailing(path@) == path@.take(r as int),
{
    let mut end = path.unicode_len();
    proof {
        assert(path@.take(end as int) =~= path@);
    }
    while end > 0 && path.get_char(end - 1) == '/'
        invariant
            end <= path@.len(),
            trim_trailing(path@) == trim_trailing(path@.take(end as int)),
        decreases end,
    {
        proof {
            assert(path@.take(end as int).drop_last() =~= path@.take(end - 1));
        }
        end = end - 1;
    }
    end
}

/// Returns the extension of `path`: the characters after the last dot of its
/// last component, trailing separators ignored, or `None` when it has no
/// extension.
pub fn extension(path: &str) -> (r: Option<String>)
    ensures
        r is Some <==> has_extension(path@),
        r is Some ==> r->0@ == extension_of(path@),
{
    let end = trimmed_len(path);
    let trimmed = path.substring_char(0, end);
    proof {
        assert(trimmed@ =~= path@.take(end as int));
    }
    let (sep, dot) = last_positions(trimmed);
    proof {
        lemma_last_positions_bounds(trimmed@);
    }
    if dot > sep && dot - sep > 1 {
        let parent = end >= 2 && dot == end && sep + 2 == end && trimmed.get_char(end - 2) == '.';
        if parent {
            None
        } else {
            let ext = trimmed.substring_char(dot, end);
            Some(ext.to_owned())
        }
    } else {
        None
    }
}

/// Folds an ASCII upper case letter to lower case and returns the character code.
pub fn lower_char_code(c: char) -> (r: u32)
    ensures
        r == lower_code(c),
{
    let code = c as u32;
    if 65 <= code && code <= 90 {
        code + 32
    } else {
        code
    }
}

/// Compares two extensions, ignoring ASCII case.
pub fn extension_matches(a: &str, b: &str) -> (r: bool)
    ensures
        r == same_extension(a@, b@),
{
    let n = a.unicode_len();
    if n != b.unicode_len() {
        return false;
    }
    let mut i: usize = 0;
    while i < n
        invariant
            n == a@.len(),
            n == b@.len(),
            0 <= i <= n,
            forall|j: int| 0 <= j < i ==> #[trigger] lower_code(a@[j]) == lower_code(b@[j]),
        decreases n - i,
    {
        if lower_char_code(a.get_char(i)) != lower_char_code(b.get_char(i)) {
            return false;
        }
        i = i + 1;
    }
    true
}

/// Compares two strings character by character.
pub fn same_text(a: &str, b: &str) -> (r: bool)
    ensures
        r == (a@ == b@),
{
    let n = a.unicode_len();
    if n != b.unicode_len() {
        return false;
    }
    let mut i: usize = 0;
    while i < n
        invariant
            n == a@.len(),
            n == b@.len(),
            0 <= i <= n,
            forall|j: int| 0 <= j < i ==> a@[j] == b@[j],
        decreases n - i,
    {
        if a.get_char(i) != b.get_char(i) {
            return false;
        }
        i = i + 1;
    }
    assert(a@ =~= b@);
    true
}

/// The path of a sibling file: `path` followed by a dot and `ext`.
pub open spec fn with_extension_appended(path: Seq<char>, ext: Seq<char>) -> Seq<char> {
    path + seq!['.'] + ext
}

/// Appends a dot and `ext` to `path` (`a/b.png` and `meta` give `a/b.png.meta`).
pub fn append_extension(path: &str, ext: &str) -> (r: String)
    ensures
        r@ == with_extension_appended(path@, ext@),
{
    let dot = ".";
    proof {
        reveal_strlit(".");
    }
    let r = String::from_str(path).concat(dot).concat(ext);
    assert(r@ =~= with_extension_appended(path@, ext@));
    r
}

} // verus!
