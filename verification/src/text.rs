//! Text handling: the grammar of the comma-separated key lists, header names
//! compared without regard to ASCII case, and the framing of a payload inside
//! an HTML document.

use vstd::prelude::*;

verus! {

/// `String::push` appends one character.
pub assume_specification[ String::push ](text: &mut String, c: char)
    ensures
        final(text)@ == old(text)@.push(c),
;

/// The characters that count as whitespace: those with the Unicode property
/// White_Space.
pub open spec fn is_whitespace(c: char) -> bool {
    let n = c as u32;
    ||| 0x09 <= n <= 0x0D
    ||| n == 0x20
    ||| n == 0x85
    ||| n == 0xA0
    ||| n == 0x1680
    ||| 0x2000 <= n <= 0x200A
    ||| n == 0x2028
    ||| n == 0x2029
    ||| n == 0x202F
    ||| n == 0x205F
    ||| n == 0x3000
}

/// `text` without the whitespace at its start.
pub open spec fn trim_start(text: Seq<char>) -> Seq<char>
    decreases text.len(),
{
    if text.len() > 0 && is_whitespace(text[0]) {
        trim_start(text.skip(1))
    } else {
        text
    }
}

/// `text` without the whitespace at its end.
pub open spec fn trim_end(text: Seq<char>) -> Seq<char>
    decreases text.len(),
{
    if text.len() > 0 && is_whitespace(text.last()) {
        trim_end(text.drop_last())
    } else {
        text
    }
}

/// `text` without the whitespace around it.
pub open spec fn trimmed(text: Seq<char>) -> Seq<char> {
    trim_end(trim_start(text))
}

/// The pieces into which the separator `sep` cuts `text`. Reading from the
/// left, a separator closes the current piece and opens an empty one, and any
/// other character joins the current piece; so there is always one piece more
/// than there are separators.
pub open spec fn pieces(text: Seq<char>, sep: char) -> Seq<Seq<char>>
    decreases text.len(),
{
    if text.len() == 0 {
        seq![Seq::<char>::empty()]
    } else {
        let before = pieces(text.drop_last(), sep);
        if text.last() == sep {
            before.push(Seq::<char>::empty())
        } else {
            before.drop_last().push(before.last().push(text.last()))
        }
    }
}

/// The keys among `parts`: each part trimmed, the empty ones left out.
pub open spec fn keys_among(parts: Seq<Seq<char>>) -> Seq<Seq<char>> {
    parts.map_values(|part: Seq<char>| trimmed(part)).filter(|key: Seq<char>| key.len() > 0)
}

/// The keys that a comma-separated list names, in the order of the list.
pub open spec fn key_list(text: Seq<char>) -> Seq<Seq<char>> {
    keys_among(pieces(text, ','))
}

/// The views of `keys`.
pub open spec fn texts(keys: Seq<String>) -> Seq<Seq<char>> {
    keys.map_values(|key: String| key@)
}

/// An ASCII capital letter becomes its small letter; every other character
/// stays.
pub open spec fn fold_case(c: char) -> char {
    if 'A' <= c && c <= 'Z' {
        ((c as u8) + 32) as char
    } else {
        c
    }
}

/// Two header names are the same when they differ in ASCII case at most.
pub open spec fn same_name(a: Seq<char>, b: Seq<char>) -> bool {
    a.len() == b.len() && forall|i: int| 0 <= i < a.len() ==> fold_case(a[i]) == fold_case(b[i])
}

/// What stands for `c` inside an HTML attribute value: a double quote becomes
/// `&quot;`, every other character stays.
pub open spec fn escape_char(c: char) -> Seq<char> {
    if c == '"' {
        seq!['&', 'q', 'u', 'o', 't', ';']
    } else {
        seq![c]
    }
}

/// `text` with every double quote replaced by `&quot;`.
pub open spec fn escape_quotes(text: Seq<char>) -> Seq<char>
    decreases text.len(),
{
    if text.len() == 0 {
        Seq::<char>::empty()
    } else {
        escape_quotes(text.drop_last()) + escape_char(text.last())
    }
}

/// `text` with every occurrence of `token` replaced by `with`. Occurrences are
/// found from the left and do not overlap. An empty token occurs nowhere.
pub open spec fn replaced(text: Seq<char>, token: Seq<char>, with: Seq<char>) -> Seq<char>
    decreases text.len(),
{
    if token.len() == 0 || text.len() < token.len() {
        text
    } else if text.take(token.len() as int) == token {
        with + replaced(text.skip(token.len() as int), token, with)
    } else {
        seq![text[0]] + replaced(text.skip(1), token, with)
    }
}

/// The characters of `text`, in order.
pub fn to_chars(text: &str) -> (chars: Vec<char>)
    ensures
        chars@ == text@,
{
    let mut chars: Vec<char> = Vec::new();
    for c in it: text.chars()
        invariant
            chars@ == it.seq().take(it.index() as int),
            it.seq() == text@,
    {
        chars.push(c);
    }
    chars
}

/// The string made of `chars[from..to]`.
pub fn from_chars(chars: &Vec<char>, from: usize, to: usize) -> (text: String)
    requires
        from <= to <= chars.len(),
    ensures
        text@ == chars@.subrange(from as int, to as int),
{
    let mut text = String::new();
    let mut i: usize = from;
    while i < to
        invariant
            from <= i <= to <= chars.len(),
            text@ == chars@.subrange(from as int, i as int),
        decreases to - i,
    {
        text.push(chars[i]);
        i += 1;
    }
    text
}

/// Whether `c` is whitespace.
pub fn whitespace(c: char) -> (yes: bool)
    ensures
        yes == is_whitespace(c),
{
    let n: u32 = c as u32;
    (0x09 <= n && n <= 0x0D) || n == 0x20 || n == 0x85 || n == 0xA0 || n == 0x1680 || (0x2000 <= n
        && n <= 0x200A) || n == 0x2028 || n == 0x2029 || n == 0x202F || n == 0x205F || n == 0x3000
}

/// The bounds of `chars[from..to]` without the whitespace around it.
fn trim_bounds(chars: &Vec<char>, from: usize, to: usize) -> (bounds: (usize, usize))
    requires
        from <= to <= chars.len(),
    ensures
        from <= bounds.0 <= bounds.1 <= to,
        chars@.subrange(bounds.0 as int, bounds.1 as int) == trimmed(
            chars@.subrange(from as int, to as int),
        ),
{
    let mut a: usize = from;
    while a < to && whitespace(chars[a])
        invariant
            from <= a <= to <= chars.len(),
            trim_start(chars@.subrange(from as int, to as int)) == trim_start(
                chars@.subrange(a as int, to as int),
            ),
        decreases to - a,
    {
        proof {
            let here = chars@.subrange(a as int, to as int);
            assert(here[0] == chars@[a as int]);
            assert(here.skip(1) =~= chars@.subrange(a + 1, to as int));
        }
        a += 1;
    }
    proof {
        let here = chars@.subrange(a as int, to as int);
        if a < to {
            assert(here[0] == chars@[a as int]);
        }
        assert(trim_start(here) == here);
    }
    let mut b: usize = to;
    while b > a && whitespace(chars[b - 1])
        invariant
            a <= b <= to <= chars.len(),
            trim_end(chars@.subrange(a as int, to as int)) == trim_end(
                chars@.subrange(a as int, b as int),
            ),
        decreases b - a,
    {
        proof {
            let here = chars@.subrange(a as int, b as int);
            assert(here.last() == chars@[b - 1]);
            assert(here.drop_last() =~= chars@.subrange(a as int, b - 1));
        }
        b -= 1;
    }
    proof {
        let here = chars@.subrange(a as int, b as int);
        if b > a {
            assert(here.last() == chars@[b - 1]);
        }
        assert(trim_end(here) == here);
    }
    (a, b)
}

/// Adds the key in `chars[from..to]` to `keys`, unless it is empty once
/// trimmed.
fn push_key(keys: &mut Vec<String>, chars: &Vec<char>, from: usize, to: usize)
    requires
        from <= to <= chars.len(),
    ensures
        texts(final(keys)@) == texts(old(keys)@) + keys_among(
            seq![chars@.subrange(from as int, to as int)],
        ),
{
    let (a, b) = trim_bounds(chars, from, to);
    proof {
        lemma_keys_among_one(chars@.subrange(from as int, to as int));
    }
    if a < b {
        let key = from_chars(chars, a, b);
        proof {
            assert(texts(keys@.push(key)) =~= texts(keys@).push(key@));
        }
        keys.push(key);
    }
}

/// The keys among a single part.
proof fn lemma_keys_among_one(part: Seq<char>)
    ensures
        keys_among(seq![part]) == if trimmed(part).len() > 0 {
            seq![trimmed(part)]
        } else {
            Seq::<Seq<char>>::empty()
        },
{
    let trim = |p: Seq<char>| trimmed(p);
    let full = |key: Seq<char>| key.len() > 0;
    let none = Seq::<Seq<char>>::empty();
    assert(seq![part].map_values(trim) =~= none.push(trimmed(part)));
    Seq::lemma_filter_push(none, trimmed(part), full);
    assert(none.filter(full) =~= none);
}

/// The keys among parts are those among the first of them followed by those
/// of the last.
proof fn lemma_keys_among_push(parts: Seq<Seq<char>>, part: Seq<char>)
    ensures
        keys_among(parts.push(part)) == keys_among(parts) + keys_among(seq![part]),
{
    let trim = |p: Seq<char>| trimmed(p);
    let full = |key: Seq<char>| key.len() > 0;
    lemma_keys_among_one(part);
    assert(parts.push(part).map_values(trim) =~= parts.map_values(trim).push(trimmed(part)));
    Seq::lemma_filter_push(parts.map_values(trim), trimmed(part), full);
}

/// The keys that the comma-separated list `text` names: the list is cut at
/// each comma, every piece is trimmed, and the empty pieces are left out.
pub fn parse_key_list(text: &str) -> (keys: Vec<String>)
    ensures
        texts(keys@) == key_list(text@),
{
    let chars = to_chars(text);
    let mut keys: Vec<String> = Vec::new();
    let mut start: usize = 0;
    let mut i: usize = 0;
    let ghost closed: Seq<Seq<char>> = Seq::empty();
    proof {
        assert(chars@.take(0) =~= Seq::<char>::empty());
        assert(chars@.subrange(0, 0) =~= Seq::<char>::empty());
        assert(pieces(chars@.take(0), ',') =~= closed.push(chars@.subrange(0, 0)));
        assert(texts(keys@) =~= keys_among(closed));
    }
    while i < chars.len()
        invariant
            start <= i <= chars.len(),
            pieces(chars@.take(i as int), ',') == closed.push(
                chars@.subrange(start as int, i as int),
            ),
            texts(keys@) == keys_among(closed),
        decreases chars.len() - i,
    {
        proof {
            let next = chars@.take(i + 1);
            assert(next.drop_last() =~= chars@.take(i as int));
            assert(next.last() == chars@[i as int]);
            let open = chars@.subrange(start as int, i as int);
            assert(closed.push(open).drop_last() =~= closed);
            assert(closed.push(open).last() == open);
            assert(open.push(chars@[i as int]) =~= chars@.subrange(start as int, i + 1));
            assert(chars@.subrange(i + 1, i + 1) =~= Seq::<char>::empty());
        }
        if chars[i] == ',' {
            proof {
                lemma_keys_among_push(closed, chars@.subrange(start as int, i as int));
            }
            push_key(&mut keys, &chars, start, i);
            proof {
                closed = closed.push(chars@.subrange(start as int, i as int));
            }
            start = i + 1;
        }
        i += 1;
    }
    proof {
        assert(chars@.take(i as int) =~= chars@);
        lemma_keys_among_push(closed, chars@.subrange(start as int, i as int));
    }
    push_key(&mut keys, &chars, start, i);
    keys
}

/// Whether `key` is one of `keys`.
pub fn key_listed(keys: &Vec<String>, key: &String) -> (listed: bool)
    ensures
        listed == texts(keys@).contains(key@),
{
    let mut i: usize = 0;
    while i < keys.len()
        invariant
            i <= keys.len(),
            forall|j: int| 0 <= j < i ==> texts(keys@)[j] != key@,
        decreases keys.len() - i,
    {
        if keys[i] == *key {
            assert(texts(keys@)[i as int] == key@);
            return true;
        }
        i += 1;
    }
    false
}

/// Whether two strings are equal.
pub fn same_text(a: &str, b: &str) -> (same: bool)
    ensures
        same == (a@ == b@),
{
    let x = to_chars(a);
    let y = to_chars(b);
    if x.len() != y.len() {
        return false;
    }
    let mut i: usize = 0;
    while i < x.len()
        invariant
            i <= x.len(),
            x.len() == y.len(),
            x@ == a@,
            y@ == b@,
            forall|j: int| 0 <= j < i ==> x@[j] == y@[j],
        decreases x.len() - i,
    {
        if x[i] != y[i] {
            return false;
        }
        i += 1;
    }
    assert(x@ =~= y@);
    true
}

/// The small letter of an ASCII capital letter, any other character as it is.
fn fold(c: char) -> (folded: char)
    ensures
        folded == fold_case(c),
{
    if 'A' <= c && c <= 'Z' {
        let b: u8 = c as u8;
        (b + 32) as char
    } else {
        c
    }
}

/// Whether two header names are the same but for ASCII case.
pub fn names_match(a: &str, b: &str) -> (same: bool)
    ensures
        same == same_name(a@, b@),
{
    let x = to_chars(a);
    let y = to_chars(b);
    if x.len() != y.len() {
        return false;
    }
    let mut i: usize = 0;
    while i < x.len()
        invariant
            i <= x.len(),
            x.len() == y.len(),
            x@ == a@,
            y@ == b@,
            forall|j: int| 0 <= j < i ==> fold_case(x@[j]) == fold_case(y@[j]),
        decreases x.len() - i,
    {
        if fold(x[i]) != fold(y[i]) {
            return false;
        }
        i += 1;
    }
    true
}

/// `text` with every double quote replaced by `&quot;`, fit to stand inside a
/// double-quoted HTML attribute.
pub fn escape_attribute(text: &str) -> (escaped: String)
    ensures
        escaped@ == escape_quotes(text@),
{
    let chars = to_chars(text);
    let mut escaped = String::new();
    let mut i: usize = 0;
    proof {
        assert(chars@.take(0) =~= Seq::<char>::empty());
    }
    while i < chars.len()
        invariant
            i <= chars.len(),
            escaped@ == escape_quotes(chars@.take(i as int)),
        decreases chars.len() - i,
    {
        proof {
            let next = chars@.take(i + 1);
            assert(next.drop_last() =~= chars@.take(i as int));
            assert(next.last() == chars@[i as int]);
        }
        let c = chars[i];
        if c == '"' {
            let ghost before = escaped@;
            escaped.push('&');
            escaped.push('q');
            escaped.push('u');
            escaped.push('o');
            escaped.push('t');
            escaped.push(';');
            assert(escaped@ =~= before + escape_char(c));
        } else {
            let ghost before = escaped@;
            escaped.push(c);
            assert(escaped@ =~= before + escape_char(c));
        }
        i += 1;
    }
    proof {
        assert(chars@.take(i as int) =~= chars@);
    }
    escaped
}

/// Whether `token` stands in `chars` at `at`.
fn occurs_at(chars: &Vec<char>, at: usize, token: &Vec<char>) -> (found: bool)
    requires
        at + token.len() <= chars.len(),
    ensures
        found == (chars@.skip(at as int).take(token.len() as int) == token@),
{
    let mut j: usize = 0;
    while j < token.len()
        invariant
            j <= token.len(),
            at + token.len() <= chars.len(),
            forall|k: int| 0 <= k < j ==> chars@[at + k] == token@[k],
        decreases token.len() - j,
    {
        if chars[at + j] != token[j] {
            assert(chars@.skip(at as int).take(token.len() as int)[j as int] != token@[j as int]);
            return false;
        }
        j += 1;
    }
    assert(chars@.skip(at as int).take(token.len() as int) =~= token@);
    true
}

/// `template` with every occurrence of `token` replaced by `with`.
pub fn replace_token(template: &str, token: &str, with: &str) -> (text: String)
    ensures
        text@ == replaced(template@, token@, with@),
{
    let chars = to_chars(template);
    let mark = to_chars(token);
    let fill = to_chars(with);
    let mut text = String::new();
    let mut i: usize = 0;
    proof {
        assert(chars@.skip(0) =~= chars@);
        assert(text@ + replaced(chars@, mark@, fill@) =~= replaced(chars@, mark@, fill@));
    }
    while i < chars.len()
        invariant
            i <= chars.len(),
            text@ + replaced(chars@.skip(i as int), mark@, fill@) == replaced(
                chars@,
                mark@,
                fill@,
            ),
        decreases chars.len() - i,
    {
        let ghost rest = chars@.skip(i as int);
        let ghost before = text@;
        if mark.len() > 0 && mark.len() <= chars.len() - i && occurs_at(&chars, i, &mark) {
            let mut j: usize = 0;
            while j < fill.len()
                invariant
                    j <= fill.len(),
                    text@ == before + fill@.take(j as int),
                decreases fill.len() - j,
            {
                proof {
                    assert(fill@.take(j + 1) =~= fill@.take(j as int).push(fill@[j as int]));
                }
                text.push(fill[j]);
                j += 1;
            }
            proof {
                assert(fill@.take(j as int) =~= fill@);
                assert(rest.skip(mark.len() as int) =~= chars@.skip(i + mark.len()));
                assert((before + fill@) + replaced(chars@.skip(i + mark.len()), mark@, fill@)
                    =~= before + (fill@ + replaced(chars@.skip(i + mark.len()), mark@, fill@)));
            }
            i += mark.len();
        } else {
            proof {
                assert(rest.skip(1) =~= chars@.skip(i + 1));
                assert(rest[0] == chars@[i as int]);
                lemma_replaced_short(rest, mark@, fill@);
                assert(rest =~= seq![rest[0]] + rest.skip(1));
                assert(before.push(chars@[i as int]) + replaced(chars@.skip(i + 1), mark@, fill@)
                    =~= before + (seq![rest[0]] + replaced(rest.skip(1), mark@, fill@)));
            }
            text.push(chars[i]);
            i += 1;
        }
    }
    proof {
        assert(chars@.skip(i as int) =~= Seq::<char>::empty());
        assert(text@ + Seq::<char>::empty() =~= text@);
    }
    text
}

/// Where the token cannot stand at the start of `text`, the first character
/// stays and the rest is replaced.
proof fn lemma_replaced_short(text: Seq<char>, token: Seq<char>, with: Seq<char>)
    requires
        text.len() > 0,
        token.len() == 0 || text.len() < token.len() || text.take(token.len() as int) != token,
    ensures
        replaced(text, token, with) == seq![text[0]] + replaced(text.skip(1), token, with),
{
    if token.len() == 0 || text.len() < token.len() {
        assert(replaced(text.skip(1), token, with) == text.skip(1));
        assert(text =~= seq![text[0]] + text.skip(1));
    }
}

/// What is left of a text without the whitespace at its start is the end of
/// that text, and does not start with whitespace.
proof fn lemma_trim_start(text: Seq<char>)
    ensures
        trim_start(text).len() <= text.len(),
        trim_start(text) == text.skip(text.len() - trim_start(text).len()),
        trim_start(text).len() > 0 ==> !is_whitespace(trim_start(text)[0]),
    decreases text.len(),
{
    if text.len() > 0 && is_whitespace(text[0]) {
        let rest = text.skip(1);
        lemma_trim_start(rest);
        let left = trim_start(rest);
        assert(rest.skip(rest.len() - left.len()) =~= text.skip(text.len() - left.len()));
    } else {
        assert(text.skip(0) =~= text);
    }
}

/// What is left of a text without the whitespace at its end is the start of
/// that text, and does not end with whitespace.
proof fn lemma_trim_end(text: Seq<char>)
    ensures
        trim_end(text).len() <= text.len(),
        trim_end(text) == text.take(trim_end(text).len() as int),
        trim_end(text).len() > 0 ==> !is_whitespace(trim_end(text).last()),
    decreases text.len(),
{
    if text.len() > 0 && is_whitespace(text.last()) {
        let rest = text.drop_last();
        lemma_trim_end(rest);
        let left = trim_end(rest);
        assert(rest.take(left.len() as int) =~= text.take(left.len() as int));
    } else {
        assert(text.take(text.len() as int) =~= text);
    }
}

/// A trimmed text that is not empty neither starts nor ends with whitespace.
pub proof fn law_trimmed_has_no_whitespace_around(text: Seq<char>)
    ensures
        trimmed(text).len() > 0 ==> !is_whitespace(trimmed(text)[0]) && !is_whitespace(
            trimmed(text).last(),
        ),
{
    let inner = trim_start(text);
    lemma_trim_start(text);
    lemma_trim_end(inner);
    if trimmed(text).len() > 0 {
        assert(trimmed(text)[0] == inner[0]);
    }
}

/// Every key that a comma-separated list names is not empty, has no
/// whitespace around it, and is a trimmed piece of the list.
pub proof fn law_keys_are_trimmed_pieces(text: Seq<char>, i: int)
    requires
        0 <= i < key_list(text).len(),
    ensures
        key_list(text)[i].len() > 0,
        !is_whitespace(key_list(text)[i][0]),
        !is_whitespace(key_list(text)[i].last()),
        exists|j: int|
            0 <= j < pieces(text, ',').len() && key_list(text)[i] == trimmed(
                #[trigger] pieces(text, ',')[j],
            ),
{
    let parts = pieces(text, ',');
    let trim = |part: Seq<char>| trimmed(part);
    let full = |key: Seq<char>| key.len() > 0;
    let all = parts.map_values(trim);
    let key = key_list(text)[i];
    all.lemma_filter_pred(full, i);
    assert(all.filter(full).contains(key));
    all.lemma_filter_contains_rev(full, key);
    let j = choose|j: int| 0 <= j < all.len() && all[j] == key;
    assert(key == trimmed(parts[j]));
    law_trimmed_has_no_whitespace_around(parts[j]);
}

/// An escaped text holds no double quote.
pub proof fn law_escaped_has_no_quote(text: Seq<char>, i: int)
    requires
        0 <= i < escape_quotes(text).len(),
    ensures
        escape_quotes(text)[i] != '"',
    decreases text.len(),
{
    if text.len() > 0 {
        let before = escape_quotes(text.drop_last());
        if i < before.len() {
            law_escaped_has_no_quote(text.drop_last(), i);
        }
    }
}

} // verus!
