//! Scanning of request text: the words of the request line, the identifier in
//! the path, and the body behind the blank line.

use vstd::prelude::*;
use vstd::string::*;

verus! {

/// The characters that separate words: those with the Unicode property
/// `White_Space`.
pub open spec fn spec_is_whitespace(c: char) -> bool {
    let u = c as u32;
    ||| 0x09 <= u <= 0x0D
    ||| u == 0x20
    ||| u == 0x85
    ||| u == 0xA0
    ||| u == 0x1680
    ||| 0x2000 <= u <= 0x200A
    ||| u == 0x2028
    ||| u == 0x2029
    ||| u == 0x202F
    ||| u == 0x205F
    ||| u == 0x3000
}

/// Tells whether `c` separates words.
#[verifier::when_used_as_spec(spec_is_whitespace)]
pub fn is_whitespace(c: char) -> (r: bool)
    ensures
        r == spec_is_whitespace(c),
{
    let u: u32 = c as u32;
    (0x09 <= u && u <= 0x0D) || u == 0x20 || u == 0x85 || u == 0xA0 || u == 0x1680 || (0x2000 <= u
        && u <= 0x200A) || u == 0x2028 || u == 0x2029 || u == 0x202F || u == 0x205F || u == 0x3000
}

/// The predicate that holds of whitespace.
pub open spec fn blank() -> spec_fn(char) -> bool {
    |c: char| spec_is_whitespace(c)
}

/// The predicate that holds of everything but whitespace.
pub open spec fn solid() -> spec_fn(char) -> bool {
    |c: char| !spec_is_whitespace(c)
}

/// The predicate that holds of every character but `sep`.
pub open spec fn other_than(sep: char) -> spec_fn(char) -> bool {
    |c: char| c != sep
}

/// Number of characters at the start of `s` that satisfy `keep`.
pub open spec fn leading(s: Seq<char>, keep: spec_fn(char) -> bool) -> nat
    decreases s.len(),
{
    if s.len() > 0 && keep(s[0]) {
        1 + leading(s.skip(1), keep)
    } else {
        0
    }
}

/// `leading(s, keep)` is the one index `n` such that everything before it
/// satisfies `keep` and `s` ends there or goes on with a character that does not.
pub proof fn lemma_leading(s: Seq<char>, keep: spec_fn(char) -> bool, n: int)
    requires
        0 <= n <= s.len(),
        forall|i: int| 0 <= i < n ==> keep(#[trigger] s[i]),
        n == s.len() || !keep(s[n]),
    ensures
        leading(s, keep) == n,
    decreases n,
{
    if n > 0 {
        let t = s.skip(1);
        assert forall|i: int| 0 <= i < n - 1 implies keep(#[trigger] t[i]) by {
            assert(t[i] == s[i + 1]);
        }
        lemma_leading(t, keep, n - 1);
    }
}

/// `leading` never runs past the end, stops only at a character that fails
/// `keep`, and passes only characters that satisfy it.
pub proof fn lemma_leading_bounds(s: Seq<char>, keep: spec_fn(char) -> bool)
    ensures
        leading(s, keep) <= s.len(),
        leading(s, keep) < s.len() ==> !keep(s[leading(s, keep) as int]),
        forall|i: int| 0 <= i < leading(s, keep) ==> keep(#[trigger] s[i]),
    decreases s.len(),
{
    if s.len() > 0 && keep(s[0]) {
        let t = s.skip(1);
        lemma_leading_bounds(t, keep);
        assert forall|i: int| 0 <= i < leading(s, keep) implies keep(#[trigger] s[i]) by {
            if i > 0 {
                assert(s[i] == t[i - 1]);
            }
        }
    }
}

/// The `n`-th word of `s`, counted from 0: a word is a longest run of
/// characters that are not whitespace. Empty where `s` has fewer words.
pub open spec fn word(s: Seq<char>, n: nat) -> Seq<char>
    decreases n,
{
    let rest = s.skip(leading(s, blank()) as int);
    let len = leading(rest, solid()) as int;
    if n == 0 {
        rest.take(len)
    } else {
        word(rest.skip(len), (n - 1) as nat)
    }
}

/// The `n`-th piece of `s`, counted from 0, where `sep` parts the pieces.
/// Empty where `s` has fewer pieces.
pub open spec fn piece(s: Seq<char>, sep: char, n: nat) -> Seq<char>
    decreases n,
{
    let len = leading(s, other_than(sep)) as int;
    if n == 0 {
        s.take(len)
    } else if len == s.len() {
        Seq::empty()
    } else {
        piece(s.skip(len + 1), sep, (n - 1) as nat)
    }
}

/// What follows the first occurrence of `mark` in `s`; empty where `mark`
/// does not occur.
pub open spec fn after_first(s: Seq<char>, mark: Seq<char>) -> Seq<char>
    decreases s.len(),
{
    if mark.is_prefix_of(s) {
        s.skip(mark.len() as int)
    } else if s.len() == 0 {
        Seq::empty()
    } else {
        after_first(s.skip(1), mark)
    }
}

/// The first line of `s`: everything before the first line feed.
pub open spec fn first_line(s: Seq<char>) -> Seq<char> {
    s.take(leading(s, other_than('\n')) as int)
}

/// The request method: the first word of the first line.
pub open spec fn method_of(request: Seq<char>) -> Seq<char> {
    word(first_line(request), 0)
}

/// The request path: the second word of the first line.
pub open spec fn path_of(request: Seq<char>) -> Seq<char> {
    word(first_line(request), 1)
}

/// The identifier named by the request: the third piece of its path between
/// slashes, as in `/users/7`. Empty where the path has no third piece.
pub open spec fn id_of(request: Seq<char>) -> Seq<char> {
    piece(path_of(request), '/', 2)
}

/// The sequence that parts the head of a request from its body.
pub open spec fn blank_line() -> Seq<char> {
    seq!['\r', '\n', '\r', '\n']
}

/// The body of the request: what follows the first blank line.
pub open spec fn body_of(request: Seq<char>) -> Seq<char> {
    after_first(request, blank_line())
}

/// Tells whether `mark` stands in `s` at index `i`.
pub open spec fn occurs_at(s: Seq<char>, mark: Seq<char>, i: int) -> bool {
    0 <= i && i + mark.len() <= s.len() && s.subrange(i, i + mark.len()) == mark
}

/// No word holds whitespace.
pub proof fn lemma_word_is_solid(s: Seq<char>, n: nat)
    ensures
        forall|i: int| 0 <= i < word(s, n).len() ==> !spec_is_whitespace(#[trigger] word(s, n)[i]),
    decreases n,
{
    let rest = s.skip(leading(s, blank()) as int);
    let len = leading(rest, solid()) as int;
    lemma_leading_bounds(rest, solid());
    if n == 0 {
        assert forall|i: int| 0 <= i < word(s, n).len() implies !spec_is_whitespace(
            #[trigger] word(s, n)[i],
        ) by {
            assert(solid()(rest[i]));
        }
    } else {
        let later = word(rest.skip(len), (n - 1) as nat);
        lemma_word_is_solid(rest.skip(len), (n - 1) as nat);
        assert(word(s, n) == later);
        assert forall|i: int| 0 <= i < word(s, n).len() implies !spec_is_whitespace(
            #[trigger] word(s, n)[i],
        ) by {
            assert(!spec_is_whitespace(later[i]));
        }
    }
}

/// No piece holds the separator, and each character of a piece is one of `s`.
pub proof fn lemma_piece_is_unbroken(s: Seq<char>, sep: char, n: nat)
    ensures
        forall|i: int|
            0 <= i < piece(s, sep, n).len() ==> (#[trigger] piece(s, sep, n)[i]) != sep
                && s.contains(piece(s, sep, n)[i]),
    decreases n,
{
    let len = leading(s, other_than(sep)) as int;
    lemma_leading_bounds(s, other_than(sep));
    if n == 0 {
        assert forall|i: int| 0 <= i < piece(s, sep, n).len() implies (#[trigger] piece(
            s,
            sep,
            n,
        )[i]) != sep && s.contains(piece(s, sep, n)[i]) by {
            assert(other_than(sep)(s[i]));
        }
    } else if len < s.len() {
        let rest = s.skip(len + 1);
        lemma_piece_is_unbroken(rest, sep, (n - 1) as nat);
        assert forall|i: int| 0 <= i < piece(s, sep, n).len() implies (#[trigger] piece(
            s,
            sep,
            n,
        )[i]) != sep && s.contains(piece(s, sep, n)[i]) by {
            let c = piece(rest, sep, (n - 1) as nat)[i];
            assert(rest.contains(c));
            let j = choose|j: int| 0 <= j < rest.len() && rest[j] == c;
            assert(s[len + 1 + j] == c);
        }
    }
}

/// Tells whether `s` holds no whitespace.
pub open spec fn is_solid(s: Seq<char>) -> bool {
    forall|i: int| 0 <= i < s.len() ==> !spec_is_whitespace(#[trigger] s[i])
}

/// A request line of the usual shape is read as it is written: where a
/// request is a method, one space, a path, and then nothing or whitespace and
/// whatever follows it, its method and its path are those two, and its
/// identifier is the third piece of that path.
pub proof fn lemma_request_line(method: Seq<char>, path: Seq<char>, rest: Seq<char>)
    requires
        method.len() > 0,
        path.len() > 0,
        is_solid(method),
        is_solid(path),
        rest.len() == 0 || spec_is_whitespace(rest[0]),
    ensures
        method_of(method + seq![' '] + path + rest) == method,
        path_of(method + seq![' '] + path + rest) == path,
        id_of(method + seq![' '] + path + rest) == piece(path, '/', 2),
{
    let s = method + seq![' '] + path + rest;
    let m = method.len() as int;
    let p = path.len() as int;
    assert forall|i: int| 0 <= i < m implies s[i] == method[i] by {}
    assert(s[m] == ' ');
    assert forall|i: int| 0 <= i < p implies s[m + 1 + i] == path[i] by {}
    assert forall|i: int| 0 <= i < rest.len() implies s[m + 1 + p + i] == rest[i] by {}
    let e = leading(s, other_than('\n')) as int;
    lemma_leading_bounds(s, other_than('\n'));
    assert(e >= m + 1 + p) by {
        if e < m + 1 + p {
            assert(s[e] == '\n');
            if e < m {
                assert(s[e] == method[e]);
            } else if e > m {
                assert(s[m + 1 + (e - m - 1)] == path[e - m - 1]);
            }
        }
    }
    let line = s.take(e);
    assert(!spec_is_whitespace(line[0])) by {
        assert(line[0] == method[0]);
    }
    lemma_leading(line, blank(), 0);
    assert(line.skip(0) == line);
    assert forall|i: int| 0 <= i < m implies solid()(#[trigger] line[i]) by {
        assert(line[i] == method[i]);
    }
    lemma_leading(line, solid(), m);
    assert(line.take(m) == method);
    let tail = line.skip(m);
    assert(tail[0] == ' ');
    assert(!spec_is_whitespace(tail[1])) by {
        assert(tail[1] == s[m + 1 + 0]);
        assert(tail[1] == path[0]);
    }
    assert forall|i: int| 0 <= i < 1 implies blank()(#[trigger] tail[i]) by {}
    lemma_leading(tail, blank(), 1);
    let last = tail.skip(1);
    assert forall|i: int| 0 <= i < p implies solid()(#[trigger] last[i]) by {
        assert(last[i] == s[m + 1 + i]);
        assert(last[i] == path[i]);
    }
    assert(p == last.len() || !solid()(last[p])) by {
        if p < last.len() {
            assert(last[p] == s[m + 1 + p + 0]);
            assert(last[p] == rest[0]);
        }
    }
    lemma_leading(last, solid(), p);
    assert(last.take(p) == path);
    assert(word(line, 1) == word(tail, 0));
}

/// The identifier that a request names holds neither a slash nor whitespace.
pub proof fn lemma_id_is_plain(request: Seq<char>)
    ensures
        forall|i: int|
            0 <= i < id_of(request).len() ==> (#[trigger] id_of(request)[i]) != '/'
                && !spec_is_whitespace(id_of(request)[i]),
{
    let path = path_of(request);
    lemma_word_is_solid(first_line(request), 1);
    lemma_piece_is_unbroken(path, '/', 2);
    assert forall|i: int| 0 <= i < id_of(request).len() implies (#[trigger] id_of(request)[i])
        != '/' && !spec_is_whitespace(id_of(request)[i]) by {
        let c = id_of(request)[i];
        assert(path.contains(c));
        let j = choose|j: int| 0 <= j < path.len() && path[j] == c;
        assert(!spec_is_whitespace(path[j]));
    }
}

/// Where `mark` stands in `s` at `i` and nowhere before, what follows its
/// first occurrence is what follows it there.
pub proof fn lemma_after_first_found(s: Seq<char>, mark: Seq<char>, i: int)
    requires
        occurs_at(s, mark, i),
        forall|j: int| 0 <= j < i ==> !occurs_at(s, mark, j),
    ensures
        after_first(s, mark) == s.skip(i + mark.len()),
    decreases i,
{
    if i == 0 {
        assert(mark.is_prefix_of(s));
    } else {
        assert(!mark.is_prefix_of(s)) by {
            if mark.is_prefix_of(s) {
                assert(occurs_at(s, mark, 0));
            }
        }
        let rest = s.skip(1);
        assert(occurs_at(rest, mark, i - 1)) by {
            assert(rest.subrange(i - 1, i - 1 + mark.len()) == s.subrange(i, i + mark.len()));
        }
        assert forall|j: int| 0 <= j < i - 1 implies !occurs_at(rest, mark, j) by {
            if occurs_at(rest, mark, j) {
                assert(rest.subrange(j, j + mark.len()) == s.subrange(j + 1, j + 1 + mark.len()));
                assert(occurs_at(s, mark, j + 1));
            }
        }
        lemma_after_first_found(rest, mark, i - 1);
        assert(rest.skip(i - 1 + mark.len()) == s.skip(i + mark.len()));
    }
}

/// Where `mark` stands nowhere in `s`, nothing follows it.
pub proof fn lemma_after_first_absent(s: Seq<char>, mark: Seq<char>)
    requires
        forall|j: int| !occurs_at(s, mark, j),
    ensures
        after_first(s, mark) == Seq::<char>::empty(),
    decreases s.len(),
{
    assert(!mark.is_prefix_of(s)) by {
        if mark.is_prefix_of(s) {
            assert(occurs_at(s, mark, 0));
        }
    }
    if s.len() > 0 {
        let rest = s.skip(1);
        assert forall|j: int| !occurs_at(rest, mark, j) by {
            if occurs_at(rest, mark, j) {
                assert(rest.subrange(j, j + mark.len()) == s.subrange(j + 1, j + 1 + mark.len()));
                assert(occurs_at(s, mark, j + 1));
            }
        }
        lemma_after_first_absent(rest, mark);
    }
}

/// A body behind the first blank line is read as it is written: where no
/// blank line starts within `head`, the body of `head`, a blank line and
/// `body` is `body`.
pub proof fn lemma_framed_body(head: Seq<char>, body: Seq<char>)
    requires
        forall|j: int|
            0 <= j < head.len() ==> !occurs_at(head + blank_line() + body, blank_line(), j),
    ensures
        body_of(head + blank_line() + body) == body,
{
    let s = head + blank_line() + body;
    let at = head.len() as int;
    assert(s.subrange(at, at + 4) == blank_line());
    lemma_after_first_found(s, blank_line(), at);
    assert(s.skip(at + 4) == body);
}

/// Collects the characters of `text`.
pub fn characters(text: &str) -> (chars: Vec<char>)
    ensures
        chars@ == text@,
{
    let mut chars: Vec<char> = Vec::new();
    for c in it: text.chars()
        invariant
            chars@ == it.seq().take(it.index() as int),
            it.seq() == text@,
    {
        chars.push(c);
    }
    chars
}

/// Index of the first character at or after `from` and before `end` that is
/// not whitespace, or `end`.
fn skip_blank(chars: &Vec<char>, from: usize, end: usize) -> (to: usize)
    requires
        from <= end <= chars.len(),
    ensures
        from <= to <= end,
        to - from == leading(chars@.subrange(from as int, end as int), blank()),
{
    let mut i: usize = from;
    while i < end && is_whitespace(chars[i])
        invariant
            from <= i <= end <= chars.len(),
            forall|j: int| from <= j < i ==> spec_is_whitespace(chars@[j]),
        decreases end - i,
    {
        i += 1;
    }
    proof {
        let window = chars@.subrange(from as int, end as int);
        assert forall|j: int| 0 <= j < i - from implies blank()(#[trigger] window[j]) by {
            assert(window[j] == chars@[from + j]);
        }
        lemma_leading(window, blank(), i - from);
    }
    i
}

/// Index of the first whitespace at or after `from` and before `end`, or `end`.
fn skip_solid(chars: &Vec<char>, from: usize, end: usize) -> (to: usize)
    requires
        from <= end <= chars.len(),
    ensures
        from <= to <= end,
        to - from == leading(chars@.subrange(from as int, end as int), solid()),
{
    let mut i: usize = from;
    while i < end && !is_whitespace(chars[i])
        invariant
            from <= i <= end <= chars.len(),
            forall|j: int| from <= j < i ==> !spec_is_whitespace(chars@[j]),
        decreases end - i,
    {
        i += 1;
    }
    proof {
        let window = chars@.subrange(from as int, end as int);
        assert forall|j: int| 0 <= j < i - from implies solid()(#[trigger] window[j]) by {
            assert(window[j] == chars@[from + j]);
        }
        lemma_leading(window, solid(), i - from);
    }
    i
}

/// Index of the first `sep` at or after `from` and before `end`, or `end`.
fn skip_to(chars: &Vec<char>, sep: char, from: usize, end: usize) -> (to: usize)
    requires
        from <= end <= chars.len(),
    ensures
        from <= to <= end,
        to - from == leading(chars@.subrange(from as int, end as int), other_than(sep)),
{
    let mut i: usize = from;
    while i < end && chars[i] != sep
        invariant
            from <= i <= end <= chars.len(),
            forall|j: int| from <= j < i ==> chars@[j] != sep,
        decreases end - i,
    {
        i += 1;
    }
    proof {
        let window = chars@.subrange(from as int, end as int);
        assert forall|j: int| 0 <= j < i - from implies other_than(sep)(#[trigger] window[j]) by {
            assert(window[j] == chars@[from + j]);
        }
        lemma_leading(window, other_than(sep), i - from);
    }
    i
}

/// Bounds of the `n`-th word of `chars[from..end]`.
fn word_bounds(chars: &Vec<char>, from: usize, end: usize, n: usize) -> (span: (usize, usize))
    requires
        from <= end <= chars.len(),
    ensures
        from <= span.0 <= span.1 <= end,
        chars@.subrange(span.0 as int, span.1 as int) == word(
            chars@.subrange(from as int, end as int),
            n as nat,
        ),
{
    let mut start: usize = skip_blank(chars, from, end);
    let mut stop: usize = skip_solid(chars, start, end);
    let mut k: usize = 0;
    proof {
        lemma_word_window(chars@, from as int, end as int);
    }
    while k < n
        invariant
            k <= n,
            from <= start <= stop <= end <= chars.len(),
            stop - start == leading(chars@.subrange(start as int, end as int), solid()),
            word(chars@.subrange(from as int, end as int), n as nat) == word(
                chars@.subrange(start as int, end as int),
                (n - k) as nat,
            ),
            leading(chars@.subrange(start as int, end as int), blank()) == 0,
        decreases n - k,
    {
        let next: usize = skip_blank(chars, stop, end);
        let after: usize = skip_solid(chars, next, end);
        proof {
            let here = chars@.subrange(start as int, end as int);
            let tail = chars@.subrange(stop as int, end as int);
            let left = (n - k - 1) as nat;
            assert(here.skip(0) == here);
            assert(here.skip(stop - start) == tail);
            assert(word(here, (n - k) as nat) == word(tail, left));
            lemma_word_window(chars@, stop as int, end as int);
            assert(word(tail, left) == word(chars@.subrange(next as int, end as int), left));
        }
        start = next;
        stop = after;
        k += 1;
    }
    proof {
        let here = chars@.subrange(start as int, end as int);
        assert(here.skip(0) == here);
        assert(here.take(stop - start) == chars@.subrange(start as int, stop as int));
    }
    (start, stop)
}

/// Skipping the whitespace in front of a window leaves the words as they were,
/// and what is left starts with no whitespace.
proof fn lemma_word_window(s: Seq<char>, from: int, end: int)
    requires
        0 <= from <= end <= s.len(),
    ensures
        ({
            let window = s.subrange(from, end);
            let gap = leading(window, blank()) as int;
            &&& from + gap <= end
            &&& leading(s.subrange(from + gap, end), blank()) == 0
            &&& forall|n: nat| word(window, n) == word(s.subrange(from + gap, end), n)
        }),
{
    let window = s.subrange(from, end);
    let gap = leading(window, blank()) as int;
    lemma_leading_bounds(window, blank());
    let rest = s.subrange(from + gap, end);
    assert(window.skip(gap) == rest);
    if rest.len() > 0 {
        assert(rest[0] == window[gap]);
    }
    assert(leading(rest, blank()) == 0);
    assert(rest.skip(0) == rest);
    assert forall|n: nat| word(window, n) == word(rest, n) by {}
}

/// The method of `request`: the first word of its first line.
pub fn get_method(request: &str) -> (method: &str)
    ensures
        method@ == method_of(request@),
{
    let chars = characters(request);
    let end: usize = skip_to(&chars, '\n', 0, chars.len());
    let span = word_bounds(&chars, 0, end, 0);
    proof {
        assert(chars@.subrange(0, chars@.len() as int) == chars@);
        assert(chars@.subrange(0, end as int) == first_line(request@));
    }
    request.substring_char(span.0, span.1)
}

/// The path of `request`: the second word of its first line.
pub fn get_path(request: &str) -> (path: &str)
    ensures
        path@ == path_of(request@),
{
    let chars = characters(request);
    let end: usize = skip_to(&chars, '\n', 0, chars.len());
    let span = word_bounds(&chars, 0, end, 1);
    proof {
        assert(chars@.subrange(0, chars@.len() as int) == chars@);
        assert(chars@.subrange(0, end as int) == first_line(request@));
    }
    request.substring_char(span.0, span.1)
}

/// Bounds of the `n`-th piece of `chars[from..end]` between separators `sep`.
fn piece_bounds(chars: &Vec<char>, sep: char, from: usize, end: usize, n: usize) -> (span: (
    usize,
    usize,
))
    requires
        from <= end <= chars.len(),
    ensures
        from <= span.0 <= span.1 <= end,
        chars@.subrange(span.0 as int, span.1 as int) == piece(
            chars@.subrange(from as int, end as int),
            sep,
            n as nat,
        ),
{
    let mut start: usize = from;
    let mut stop: usize = skip_to(chars, sep, start, end);
    let mut k: usize = 0;
    while k < n
        invariant
            k <= n,
            from <= start <= stop <= end <= chars.len(),
            stop - start == leading(chars@.subrange(start as int, end as int), other_than(sep)),
            piece(chars@.subrange(from as int, end as int), sep, n as nat) == piece(
                chars@.subrange(start as int, end as int),
                sep,
                (n - k) as nat,
            ),
        decreases n - k,
    {
        if stop == end {
            proof {
                assert(chars@.subrange(end as int, end as int) == Seq::<char>::empty());
            }
            return (end, end);
        }
        let next: usize = stop + 1;
        proof {
            let here = chars@.subrange(start as int, end as int);
            assert(here.skip(stop - start + 1) == chars@.subrange(next as int, end as int));
        }
        start = next;
        stop = skip_to(chars, sep, start, end);
        k += 1;
    }
    proof {
        let here = chars@.subrange(start as int, end as int);
        assert(here.take(stop - start) == chars@.subrange(start as int, stop as int));
    }
    (start, stop)
}

/// The identifier that `request` names: the third piece of its path, as in
/// `/users/7`; empty where the path has none.
pub fn get_id(request: &str) -> (id: &str)
    ensures
        id@ == id_of(request@),
{
    let chars = characters(request);
    let end: usize = skip_to(&chars, '\n', 0, chars.len());
    let path = word_bounds(&chars, 0, end, 1);
    let span = piece_bounds(&chars, '/', path.0, path.1, 2);
    proof {
        assert(chars@.subrange(0, chars@.len() as int) == chars@);
        assert(chars@.subrange(0, end as int) == first_line(request@));
    }
    request.substring_char(span.0, span.1)
}

/// The body of `request`, where a user record is written: what follows its
/// first blank line; empty where it has none. The text is handed on as it
/// is: reading the record out of it is the codec's part.
pub fn get_user_request_body(request: &str) -> (body: &str)
    ensures
        body@ == body_of(request@),
{
    let chars = characters(request);
    let n: usize = chars.len();
    let mut i: usize = 0;
    proof {
        assert(chars@.skip(0) == chars@);
    }
    while i < n
        invariant
            i <= n == chars.len(),
            chars@ == request@,
            body_of(request@) == after_first(chars@.skip(i as int), blank_line()),
        decreases n - i,
    {
        if n - i >= 4 && chars[i] == '\r' && chars[i + 1] == '\n' && chars[i + 2] == '\r' && chars[i
            + 3] == '\n' {
            proof {
                let rest = chars@.skip(i as int);
                assert(blank_line() =~= rest.subrange(0, 4));
                assert(rest.skip(4) == chars@.subrange(i + 4, n as int));
            }
            return request.substring_char(i + 4, n);
        }
        proof {
            let rest = chars@.skip(i as int);
            if blank_line().is_prefix_of(rest) {
                let head = rest.subrange(0, 4);
                assert(head[0] == '\r' && head[1] == '\n' && head[2] == '\r' && head[3] == '\n');
            }
            assert(rest.skip(1) == chars@.skip(i + 1));
        }
        i += 1;
    }
    proof {
        assert(chars@.subrange(n as int, n as int) == Seq::<char>::empty());
    }
    request.substring_char(n, n)
}

/// Tells whether `c` is one of the decimal digits `0` to `9`.
pub open spec fn is_digit(c: char) -> bool {
    0x30 <= c as u32 <= 0x39
}

/// The number that the digits `s` write in base ten; 0 for no digits.
pub open spec fn decimal(s: Seq<char>) -> nat
    decreases s.len(),
{
    if s.len() == 0 {
        0
    } else {
        (decimal(s.drop_last()) * 10 + (s.last() as u32 - 0x30)) as nat
    }
}

/// Tells whether `s` holds decimal digits only.
pub open spec fn all_digits(s: Seq<char>) -> bool {
    forall|i: int| 0 <= i < s.len() ==> is_digit(#[trigger] s[i])
}

/// Length of the sign in front of `s`: 1 where `s` starts with `+` or `-`.
pub open spec fn sign_len(s: Seq<char>) -> int {
    if s.len() > 0 && (s[0] == '-' || s[0] == '+') {
        1
    } else {
        0
    }
}

/// The integer that `s` writes, where it writes one that an `i32` holds: an
/// optional sign, `+` or `-`, and then digits, at least one, and nothing else.
pub open spec fn integer_of(s: Seq<char>) -> Option<i32> {
    let digits = s.skip(sign_len(s));
    let value = if s.len() > 0 && s[0] == '-' {
        -(decimal(digits) as int)
    } else {
        decimal(digits) as int
    };
    if digits.len() > 0 && all_digits(digits) && i32::MIN <= value <= i32::MAX {
        Some(value as i32)
    } else {
        None
    }
}

/// Appending digits never makes the number smaller.
proof fn lemma_decimal_grows(s: Seq<char>, upto: int)
    requires
        0 <= upto <= s.len(),
        all_digits(s),
    ensures
        decimal(s.take(upto)) <= decimal(s),
    decreases s.len() - upto,
{
    if upto < s.len() {
        let longer = s.take(upto + 1);
        assert(longer.drop_last() == s.take(upto));
        assert(is_digit(s[upto]));
        assert(longer.last() == s[upto]);
        lemma_decimal_grows(s, upto + 1);
    } else {
        assert(s.take(upto) == s);
    }
}

/// One more digit behind `size` digits: ten times the number, plus the digit.
proof fn lemma_decimal_step(s: Seq<char>, size: int)
    requires
        0 <= size < s.len(),
        is_digit(s[size]),
    ensures
        decimal(s.take(size + 1)) == decimal(s.take(size)) * 10 + (s[size] as u32 - 0x30),
{
    let longer = s.take(size + 1);
    assert(longer.drop_last() == s.take(size));
    assert(longer.last() == s[size]);
}

/// Reads `text` as a record identifier: an optional sign and decimal digits
/// that write an `i32`. Anything else, whitespace included, is refused.
pub fn parse_id(text: &str) -> (id: Option<i32>)
    ensures
        id == integer_of(text@),
{
    let chars = characters(text);
    let n: usize = chars.len();
    let negative: bool = n > 0 && chars[0] == '-';
    let first: usize = if n > 0 && (chars[0] == '-' || chars[0] == '+') {
        1
    } else {
        0
    };
    let ghost digits = text@.skip(first as int);
    if first == n {
        return None;
    }
    let mut size: i64 = 0;
    let mut i: usize = first;
    while i < n
        invariant
            first <= i <= n == chars.len(),
            chars@ == text@,
            first == sign_len(text@),
            digits == text@.skip(first as int),
            all_digits(digits.take(i - first)),
            size == decimal(digits.take(i - first)),
            0 <= size <= 0x8000_0000,
        decreases n - i,
    {
        let u: u32 = chars[i] as u32;
        assert(chars@[i as int] == digits[i - first]);
        if u < 0x30 || u > 0x39 {
            assert(!is_digit(digits[i - first]));
            return None;
        }
        proof {
            lemma_decimal_step(digits, i - first);
            assert forall|j: int| 0 <= j < i - first + 1 implies is_digit(
                #[trigger] digits.take(i - first + 1)[j],
            ) by {
                if j < i - first {
                    assert(is_digit(digits.take(i - first)[j]));
                }
            }
        }
        let digit: i64 = (u - 0x30) as i64;
        size = size * 10 + digit;
        i += 1;
        if size > 0x8000_0000 {
            proof {
                if all_digits(digits) {
                    lemma_decimal_grows(digits, i - first);
                }
            }
            return None;
        }
    }
    proof {
        assert(digits.take(n - first) == digits);
    }
    if negative {
        Some((-size) as i32)
    } else if size > 0x7FFF_FFFF {
        None
    } else {
        Some(size as i32)
    }
}

/// Tells whether `text` starts with `prefix`.
pub fn starts_with(text: &str, prefix: &str) -> (r: bool)
    ensures
        r == prefix@.is_prefix_of(text@),
{
    let chars = characters(text);
    let head = characters(prefix);
    if head.len() > chars.len() {
        return false;
    }
    let mut i: usize = 0;
    while i < head.len()
        invariant
            i <= head.len() <= chars.len(),
            chars@ == text@,
            head@ == prefix@,
            forall|j: int| 0 <= j < i ==> head@[j] == chars@[j],
        decreases head.len() - i,
    {
        if head[i] != chars[i] {
            proof {
                if prefix@.is_prefix_of(text@) {
                    assert(text@.subrange(0, prefix@.len() as int)[i as int] == prefix@[i as int]);
                }
            }
            return false;
        }
        i += 1;
    }
    proof {
        assert(prefix@ =~= text@.subrange(0, prefix@.len() as int));
    }
    true
}

/// Tells whether `left` and `right` hold the same characters.
pub fn same_text(left: &str, right: &str) -> (r: bool)
    ensures
        r == (left@ == right@),
{
    let a = characters(left);
    let b = characters(right);
    if a.len() != b.len() {
        return false;
    }
    let mut i: usize = 0;
    while i < a.len()
        invariant
            i <= a.len() == b.len(),
            a@ == left@,
            b@ == right@,
            forall|j: int| 0 <= j < i ==> a@[j] == b@[j],
        decreases a.len() - i,
    {
        if a[i] != b[i] {
            return false;
        }
        i += 1;
    }
    proof {
        assert(left@ =~= right@);
    }
    true
}

} // verus!
