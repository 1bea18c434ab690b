//! Text as sequences of characters: whitespace, tokens, trimming and integer literals, as the
//! standard library's `str` methods read them.
use vstd::prelude::*;
use vstd::std_specs::iter::IteratorSpec;

verus! {

/// Whether `c` has the Unicode White_Space property (`char::is_whitespace`).
pub open spec fn is_ws(c: char) -> bool {
    let u = c as u32;
    ||| 9 <= u <= 13
    ||| u == 32
    ||| u == 0x85
    ||| u == 0xA0
    ||| u == 0x1680
    ||| 0x2000 <= u <= 0x200A
    ||| u == 0x2028
    ||| u == 0x2029
    ||| u == 0x202F
    ||| u == 0x205F
    ||| u == 0x3000
}

/// `char::is_whitespace`.
pub fn is_ws_char(c: char) -> (r: bool)
    ensures
        r == is_ws(c),
{
    let u = c as u32;
    (9 <= u && u <= 13) || u == 32 || u == 0x85 || u == 0xA0 || u == 0x1680 || (0x2000 <= u && u
        <= 0x200A) || u == 0x2028 || u == 0x2029 || u == 0x202F || u == 0x205F || u == 0x3000
}

/// The characters of a string, in order.
pub fn chars_of(s: &String) -> (r: Vec<char>)
    ensures
        r@ == s@,
{
    let st = s.as_str();
    let mut it = st.chars();
    let mut out: Vec<char> = Vec::new();
    proof {
        vstd::string::axiom_spec_iter(st);
        assert(out@ + it.remaining() =~= s@);
    }
    loop
        invariant
            it.obeys_prophetic_iter_laws(),
            it.decrease() is Some,
            out@ + it.remaining() == s@,
        ensures
            out@ == s@,
        decreases it.decrease()->0,
    {
        match it.next() {
            Some(c) => {
                out.push(c);
                proof { assert(out@ + it.remaining() =~= s@); }
            },
            None => {
                proof { assert(out@ =~= s@); }
                break;
            },
        }
    }
    out
}

/// `String::push`, which appends `c` to the end of the string: trusted to leave the characters
/// of the string followed by `c`, as the standard library documents.
#[verifier::external_body]
fn push_char(s: &mut String, c: char)
    ensures
        final(s)@ == old(s)@.push(c),
{
    s.push(c);
}

/// The string of the given characters.
pub fn string_of(cs: &[char]) -> (r: String)
    ensures
        r@ == cs@,
{
    let mut s = String::new();
    let mut i: usize = 0;
    while i < cs.len()
        invariant
            i <= cs@.len(),
            s@ == cs@.take(i as int),
        decreases cs@.len() - i,
    {
        push_char(&mut s, cs[i]);
        i += 1;
        proof { assert(s@ =~= cs@.take(i as int)); }
    }
    proof { assert(cs@.take(i as int) =~= cs@); }
    s
}

/// Whether two character sequences are equal.
pub fn same_chars(a: &[char], b: &[char]) -> (r: bool)
    ensures
        r == (a@ == b@),
{
    if a.len() != b.len() {
        return false;
    }
    let mut i: usize = 0;
    while i < a.len()
        invariant
            i <= a@.len(),
            a@.len() == b@.len(),
            forall|j: int| 0 <= j < i ==> a@[j] == b@[j],
        decreases a@.len() - i,
    {
        if a[i] != b[i] {
            return false;
        }
        i += 1;
    }
    proof { assert(a@ =~= b@); }
    true
}

/// The whitespace-separated words of `s` (`str::split_whitespace`): its maximal runs of
/// characters that are not whitespace, in order. Each character that is not whitespace either
/// extends the word of the character before it or starts a word.
pub open spec fn tokens(s: Seq<char>) -> Seq<Seq<char>>
    decreases s.len(),
{
    if s.len() == 0 {
        Seq::empty()
    } else {
        let t = tokens(s.drop_last());
        let c = s.last();
        if is_ws(c) {
            t
        } else if s.len() >= 2 && !is_ws(s[s.len() - 2]) {
            t.update(t.len() - 1, t.last().push(c))
        } else {
            t.push(seq![c])
        }
    }
}

/// The views of a sequence of character vectors.
pub open spec fn char_views(v: Seq<Vec<char>>) -> Seq<Seq<char>> {
    v.map_values(|t: Vec<char>| t@)
}

/// The views of a sequence of strings.
pub open spec fn texts(v: Seq<String>) -> Seq<Seq<char>> {
    v.map_values(|t: String| t@)
}

/// A text that ends in a character that is not whitespace has a last word.
pub proof fn lemma_tokens_nonempty(s: Seq<char>)
    requires
        s.len() > 0,
        !is_ws(s.last()),
    ensures
        tokens(s).len() > 0,
    decreases s.len(),
{
    if s.len() >= 2 && !is_ws(s[s.len() - 2]) {
        lemma_tokens_nonempty(s.drop_last());
    }
}

/// The words of `s` (`str::split_whitespace`).
pub fn split_tokens(s: &[char]) -> (r: Vec<Vec<char>>)
    ensures
        char_views(r@) == tokens(s@),
{
    let mut toks: Vec<Vec<char>> = Vec::new();
    let mut cur: Vec<char> = Vec::new();
    let mut i: usize = 0;
    while i < s.len()
        invariant
            i <= s@.len(),
            (i > 0 && !is_ws(s@[i - 1])) ==> tokens(s@.take(i as int)) == char_views(toks@).push(cur@),
            !(i > 0 && !is_ws(s@[i - 1])) ==> tokens(s@.take(i as int)) == char_views(toks@) && cur@.len() == 0,
        decreases s@.len() - i,
    {
        let c = s[i];
        let in_word = i > 0 && !is_ws_char(s[i - 1]);
        proof {
            assert(s@.take(i + 1).drop_last() =~= s@.take(i as int));
            assert(s@.take(i + 1).last() == c);
            if i > 0 {
                assert(s@.take(i + 1)[i - 1] == s@[i - 1]);
            }
        }
        if is_ws_char(c) {
            if in_word {
                let w = cur;
                toks.push(w);
                cur = Vec::new();
                proof { assert(char_views(toks@) =~= tokens(s@.take(i as int))); }
            }
        } else {
            let ghost old_toks = char_views(toks@);
            let ghost old_cur = cur@;
            cur.push(c);
            proof {
                if in_word {
                    assert(old_toks.push(old_cur).update(old_toks.len() as int, old_cur.push(c))
                        =~= old_toks.push(cur@));
                } else {
                    assert(old_cur.push(c) =~= seq![c]);
                }
            }
        }
        i += 1;
    }
    proof { assert(s@.take(i as int) =~= s@); }
    if i > 0 && !is_ws_char(s[i - 1]) {
        toks.push(cur);
    }
    proof { assert(char_views(toks@) =~= tokens(s@)); }
    toks
}

/// `s` without its leading whitespace (`str::trim_start`).
pub open spec fn trim_start(s: Seq<char>) -> Seq<char>
    decreases s.len(),
{
    if s.len() > 0 && is_ws(s[0]) { trim_start(s.drop_first()) } else { s }
}

/// `s` without its trailing whitespace (`str::trim_end`).
pub open spec fn trim_end(s: Seq<char>) -> Seq<char>
    decreases s.len(),
{
    if s.len() > 0 && is_ws(s.last()) { trim_end(s.drop_last()) } else { s }
}

/// `s` without its leading and trailing whitespace (`str::trim`).
pub open spec fn trim(s: Seq<char>) -> Seq<char> {
    trim_end(trim_start(s))
}

/// `str::trim`.
pub fn trim_chars(s: &[char]) -> (r: Vec<char>)
    ensures
        r@ == trim(s@),
{
    let n = s.len();
    let mut a: usize = 0;
    proof { assert(s@.subrange(0, n as int) =~= s@); }
    while a < n && is_ws_char(s[a])
        invariant
            a <= n,
            n == s@.len(),
            trim_start(s@) == trim_start(s@.subrange(a as int, n as int)),
        decreases n - a,
    {
        proof { assert(s@.subrange(a as int, n as int).drop_first() =~= s@.subrange(a + 1, n as int)); }
        a += 1;
    }
    let ghost x = s@.subrange(a as int, n as int);
    assert(trim_start(s@) == x);
    let mut b: usize = n;
    while b > a && is_ws_char(s[b - 1])
        invariant
            a <= b <= n,
            n == s@.len(),
            x == s@.subrange(a as int, n as int),
            trim_end(x) == trim_end(s@.subrange(a as int, b as int)),
        decreases b - a,
    {
        proof { assert(s@.subrange(a as int, b as int).drop_last() =~= s@.subrange(a as int, b - 1)); }
        b -= 1;
    }
    let mut r: Vec<char> = Vec::new();
    let mut k: usize = a;
    while k < b
        invariant
            a <= k <= b <= n,
            n == s@.len(),
            r@ == s@.subrange(a as int, k as int),
        decreases b - k,
    {
        r.push(s[k]);
        k += 1;
        proof { assert(r@ =~= s@.subrange(a as int, k as int)); }
    }
    r
}

/// The first position at or after `from` of the word `w` in `toks`.
pub open spec fn word_index_from(toks: Seq<Seq<char>>, w: Seq<char>, from: int) -> Option<int>
    decreases toks.len() - from,
{
    if from < 0 || from >= toks.len() {
        None
    } else if toks[from] == w {
        Some(from)
    } else {
        word_index_from(toks, w, from + 1)
    }
}

/// The first position of the word `w` in `toks` (`Iterator::position`).
pub open spec fn word_index(toks: Seq<Seq<char>>, w: Seq<char>) -> Option<int> {
    word_index_from(toks, w, 0)
}

/// The position found holds the word.
pub proof fn lemma_word_index_holds(toks: Seq<Seq<char>>, w: Seq<char>, from: int)
    ensures
        word_index_from(toks, w, from) matches Some(i) ==> from <= i < toks.len() && toks[i] == w,
    decreases toks.len() - from,
{
    if 0 <= from < toks.len() && toks[from] != w {
        lemma_word_index_holds(toks, w, from + 1);
    }
}

/// The first position of the word `w` in `toks`.
pub fn find_word(toks: &Vec<Vec<char>>, w: &[char]) -> (r: Option<usize>)
    ensures
        r matches Some(i) ==> word_index(char_views(toks@), w@) == Some(i as int) && i < toks@.len(),
        r is None ==> word_index(char_views(toks@), w@) is None,
{
    let ghost v = char_views(toks@);
    let mut i: usize = 0;
    while i < toks.len()
        invariant
            i <= toks@.len(),
            v == char_views(toks@),
            word_index(v, w@) == word_index_from(v, w@, i as int),
        decreases toks@.len() - i,
    {
        if same_chars(toks[i].as_slice(), w) {
            return Some(i);
        }
        i += 1;
    }
    None
}

/// The first position at or after `from` of the character `c` in `s`.
pub open spec fn char_index_from(s: Seq<char>, c: char, from: int) -> Option<int>
    decreases s.len() - from,
{
    if from < 0 || from >= s.len() {
        None
    } else if s[from] == c {
        Some(from)
    } else {
        char_index_from(s, c, from + 1)
    }
}

/// The first position of `c` in `s`.
pub fn find_char(s: &[char], c: char) -> (r: Option<usize>)
    ensures
        r matches Some(i) ==> char_index_from(s@, c, 0) == Some(i as int) && i < s@.len(),
        r is None ==> char_index_from(s@, c, 0) is None,
{
    let mut i: usize = 0;
    while i < s.len()
        invariant
            i <= s@.len(),
            char_index_from(s@, c, 0) == char_index_from(s@, c, i as int),
        decreases s@.len() - i,
    {
        if s[i] == c {
            return Some(i);
        }
        i += 1;
    }
    None
}

/// The characters of `s` from `a` up to `b`.
pub fn slice_chars(s: &[char], a: usize, b: usize) -> (r: Vec<char>)
    requires
        a <= b <= s@.len(),
    ensures
        r@ == s@.subrange(a as int, b as int),
{
    let mut r: Vec<char> = Vec::new();
    let mut k: usize = a;
    while k < b
        invariant
            a <= k <= b <= s@.len(),
            r@ == s@.subrange(a as int, k as int),
        decreases b - k,
    {
        r.push(s[k]);
        k += 1;
        proof { assert(r@ =~= s@.subrange(a as int, k as int)); }
    }
    r
}

/// Whether `c` is an ASCII digit.
pub open spec fn is_digit(c: char) -> bool {
    48 <= (c as u32) <= 57
}

/// Whether `s` is made of ASCII digits only.
pub open spec fn all_digits(s: Seq<char>) -> bool {
    forall|i: int| 0 <= i < s.len() ==> is_digit(#[trigger] s[i])
}

/// The number that the decimal digits of `s` write.
pub open spec fn digits_value(s: Seq<char>) -> int
    decreases s.len(),
{
    if s.len() == 0 { 0 } else { digits_value(s.drop_last()) * 10 + ((s.last() as u32) - 48) }
}

/// What `u64::from_str` reads from `s`: an optional `+`, then at least one digit, the number
/// fitting in 64 bits.
pub open spec fn parse_u64(s: Seq<char>) -> Option<u64> {
    let body = if s.len() > 0 && s[0] == '+' { s.drop_first() } else { s };
    if body.len() > 0 && all_digits(body) && digits_value(body) <= u64::MAX {
        Some(digits_value(body) as u64)
    } else {
        None
    }
}

/// What `isize::from_str` reads from `s`: an optional sign, then at least one digit, the
/// number fitting in an `isize`.
pub open spec fn parse_isize(s: Seq<char>) -> Option<isize> {
    if s.len() > 0 && s[0] == '-' {
        let body = s.drop_first();
        if body.len() > 0 && all_digits(body) && -digits_value(body) >= isize::MIN {
            Some((-digits_value(body)) as isize)
        } else {
            None
        }
    } else {
        let body = if s.len() > 0 && s[0] == '+' { s.drop_first() } else { s };
        if body.len() > 0 && all_digits(body) && digits_value(body) <= isize::MAX {
            Some(digits_value(body) as isize)
        } else {
            None
        }
    }
}

/// What `bool::from_str` reads from `s`: `true` or `false`, nothing else.
pub open spec fn parse_bool(s: Seq<char>) -> Option<bool> {
    if s == seq!['t', 'r', 'u', 'e'] {
        Some(true)
    } else if s == seq!['f', 'a', 'l', 's', 'e'] {
        Some(false)
    } else {
        None
    }
}

/// A number written in digits is at least the number its first digits write.
proof fn lemma_digits_prefix(s: Seq<char>, k: int)
    requires
        all_digits(s),
        0 <= k <= s.len(),
    ensures
        0 <= digits_value(s.take(k)) <= digits_value(s),
    decreases s.len(),
{
    if k == s.len() {
        assert(s.take(k) =~= s);
        lemma_digits_nonneg(s);
    } else {
        assert(s.drop_last().take(k) =~= s.take(k));
        lemma_digits_prefix(s.drop_last(), k);
        assert(is_digit(s[s.len() - 1]));
    }
}

/// A number written in digits is not negative.
proof fn lemma_digits_nonneg(s: Seq<char>)
    requires
        all_digits(s),
    ensures
        digits_value(s) >= 0,
    decreases s.len(),
{
    if s.len() > 0 {
        lemma_digits_nonneg(s.drop_last());
        assert(is_digit(s[s.len() - 1]));
    }
}

/// The number that the characters of `s` from `from` on write, where they are all digits and
/// the number fits in 64 bits.
fn digits_u64(s: &[char], from: usize) -> (r: Option<u64>)
    requires
        from <= s@.len(),
    ensures
        ({
            let body = s@.skip(from as int);
            match r {
                Some(v) => all_digits(body) && digits_value(body) == v,
                None => !(all_digits(body) && digits_value(body) <= u64::MAX),
            }
        }),
{
    let ghost body = s@.skip(from as int);
    let mut acc: u64 = 0;
    let mut i: usize = from;
    while i < s.len()
        invariant
            from <= i <= s@.len(),
            body == s@.skip(from as int),
            all_digits(body.take(i - from)),
            digits_value(body.take(i - from)) == acc,
        decreases s@.len() - i,
    {
        let c = s[i];
        let u = c as u32;
        proof {
            assert(body.take(i - from + 1).drop_last() =~= body.take(i - from));
            assert(body.take(i - from + 1).last() == c);
        }
        if u < 48 || u > 57 {
            proof {
                assert(body[i - from] == c);
                assert(!is_digit(body[i - from]));
            }
            return None;
        }
        let d = (u - 48) as u64;
        let prod = acc.checked_mul(10);
        match prod {
            None => {
                proof {
                    assert(all_digits(body.take(i - from + 1)));
                    if all_digits(body) {
                        lemma_digits_prefix(body, i - from + 1);
                    }
                }
                return None;
            },
            Some(p) => {
                match p.checked_add(d) {
                    None => {
                        proof {
                            assert(all_digits(body.take(i - from + 1)));
                            if all_digits(body) {
                                lemma_digits_prefix(body, i - from + 1);
                            }
                        }
                        return None;
                    },
                    Some(v) => {
                        acc = v;
                    },
                }
            },
        }
        i += 1;
        proof { assert(all_digits(body.take(i - from))); }
    }
    proof { assert(body.take(i - from) =~= body); }
    Some(acc)
}

/// `u64::from_str`.
pub fn parse_u64_chars(s: &[char]) -> (r: Option<u64>)
    ensures
        r == parse_u64(s@),
{
    let from: usize = if s.len() > 0 && s[0] == '+' { 1 } else { 0 };
    proof {
        if from == 1 { assert(s@.skip(1) =~= s@.drop_first()); } else { assert(s@.skip(0) =~= s@); }
    }
    if from >= s.len() {
        return None;
    }
    digits_u64(s, from)
}

/// `isize::from_str`.
pub fn parse_isize_chars(s: &[char]) -> (r: Option<isize>)
    ensures
        r == parse_isize(s@),
{
    let neg = s.len() > 0 && s[0] == '-';
    let from: usize = if s.len() > 0 && (s[0] == '+' || s[0] == '-') { 1 } else { 0 };
    proof {
        if from == 1 { assert(s@.skip(1) =~= s@.drop_first()); } else { assert(s@.skip(0) =~= s@); }
    }
    if from >= s.len() {
        return None;
    }
    match digits_u64(s, from) {
        None => None,
        Some(v) => {
            let max = isize::MAX as u64;
            if neg {
                if v <= max {
                    Some(-(v as isize))
                } else if v == max + 1 {
                    Some(isize::MIN)
                } else {
                    None
                }
            } else if v <= max {
                Some(v as isize)
            } else {
                None
            }
        },
    }
}

/// `bool::from_str`.
pub fn parse_bool_chars(s: &[char]) -> (r: Option<bool>)
    ensures
        r == parse_bool(s@),
{
    if same_chars(s, &['t', 'r', 'u', 'e']) {
        Some(true)
    } else if same_chars(s, &['f', 'a', 'l', 's', 'e']) {
        Some(false)
    } else {
        None
    }
}

/// The strings of the words from position `from` on.
pub fn strings_from(toks: &Vec<Vec<char>>, from: usize) -> (r: Vec<String>)
    requires
        from <= toks@.len(),
    ensures
        texts(r@) == char_views(toks@).skip(from as int),
{
    let mut out: Vec<String> = Vec::new();
    let mut k: usize = from;
    while k < toks.len()
        invariant
            from <= k <= toks@.len(),
            texts(out@) == char_views(toks@).subrange(from as int, k as int),
        decreases toks@.len() - k,
    {
        let ghost before = out@;
        let w = string_of(toks[k].as_slice());
        out.push(w);
        proof {
            assert(texts(out@) =~= texts(before).push(w@));
            assert(char_views(toks@).subrange(from as int, k + 1) =~= char_views(toks@).subrange(
                from as int,
                k as int,
            ).push(char_views(toks@)[k as int]));
        }
        k += 1;
    }
    proof { assert(char_views(toks@).subrange(from as int, k as int) =~= char_views(toks@).skip(from as int)); }
    out
}

} // verus!
