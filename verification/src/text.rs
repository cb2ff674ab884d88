//! Character-sequence helpers shared by the parser, the catalog and the
//! resolution pipeline. Contracts speak of `Seq<char>`, the view of a string.

use vstd::prelude::*;
use vstd::string::*;

verus! {

/// Whether `c` has the Unicode `White_Space` property.
pub open spec fn is_whitespace(c: char) -> bool {
    let code = c as u32;
    ||| 0x09 <= code <= 0x0D
    ||| code == 0x20
    ||| code == 0x85
    ||| code == 0xA0
    ||| code == 0x1680
    ||| 0x2000 <= code <= 0x200A
    ||| code == 0x2028
    ||| code == 0x2029
    ||| code == 0x202F
    ||| code == 0x205F
    ||| code == 0x3000
}

/// Whether every character of `text` is whitespace; the empty text is blank.
pub open spec fn is_blank(text: Seq<char>) -> bool {
    forall|i: int| 0 <= i < text.len() ==> is_whitespace(#[trigger] text[i])
}

/// Whether `needle` stands in `hay` at position `at`.
pub open spec fn occurs_at(needle: Seq<char>, hay: Seq<char>, at: int) -> bool {
    &&& 0 <= at
    &&& at + needle.len() <= hay.len()
    &&& hay.subrange(at, at + needle.len()) == needle
}

/// Whether `needle` is a contiguous part of `hay`.
pub open spec fn occurs_in(needle: Seq<char>, hay: Seq<char>) -> bool {
    exists|at: int| occurs_at(needle, hay, at)
}

/// The lowercase form of a text, as `str::to_lowercase` computes it.
pub uninterp spec fn lowercase(text: Seq<char>) -> Seq<char>;

/// Calls `str::to_lowercase`. The result is the Unicode lowercase mapping of
/// the argument, which depends on the argument alone; the contract gives it
/// the name `lowercase`.
#[verifier::external_body]
pub(crate) fn to_lowercase(text: &str) -> (lowered: String)
    ensures
        lowered@ == lowercase(text@),
{
    text.to_lowercase()
}

/// Calls `String::push`, which appends one character.
#[verifier::external_body]
pub(crate) fn push_char(text: &mut String, c: char)
    ensures
        final(text)@ == old(text)@.push(c),
{
    text.push(c)
}

/// Whether `c` is whitespace.
pub fn whitespace(c: char) -> (r: bool)
    ensures
        r == is_whitespace(c),
{
    let code: u32 = c as u32;
    (0x09 <= code && code <= 0x0D) || code == 0x20 || code == 0x85 || code == 0xA0 || code
        == 0x1680 || (0x2000 <= code && code <= 0x200A) || code == 0x2028 || code == 0x2029
        || code == 0x202F || code == 0x205F || code == 0x3000
}

/// The characters of `text`, in order.
pub fn chars_of(text: &str) -> (chars: Vec<char>)
    ensures
        chars@ == text@,
{
    let mut chars: Vec<char> = Vec::new();
    for c in iter: text.chars()
        invariant
            chars@ == iter.seq().take(iter.index() as int),
            iter.seq() == text@,
    {
        chars.push(c);
    }
    chars
}

/// The string made of `chars`, in order.
pub fn string_from(chars: &Vec<char>) -> (text: String)
    ensures
        text@ == chars@,
{
    let mut text = String::new();
    let mut i: usize = 0;
    while i < chars.len()
        invariant
            i <= chars.len(),
            text@ == chars@.take(i as int),
        decreases chars.len() - i,
    {
        push_char(&mut text, chars[i]);
        i += 1;
    }
    text
}

/// The lowercase form of `text`, as characters.
pub fn lowercase_chars(text: &str) -> (chars: Vec<char>)
    ensures
        chars@ == lowercase(text@),
{
    let lowered = to_lowercase(text);
    chars_of(lowered.as_str())
}

/// Whether every character is whitespace.
pub fn blank(chars: &Vec<char>) -> (r: bool)
    ensures
        r == is_blank(chars@),
{
    let mut i: usize = 0;
    while i < chars.len()
        invariant
            i <= chars.len(),
            forall|j: int| 0 <= j < i ==> is_whitespace(#[trigger] chars@[j]),
        decreases chars.len() - i,
    {
        if !whitespace(chars[i]) {
            return false;
        }
        i += 1;
    }
    true
}

/// Whether `needle` stands in `hay` at position `at`.
pub fn matches_at(hay: &Vec<char>, needle: &Vec<char>, at: usize) -> (r: bool)
    ensures
        r == occurs_at(needle@, hay@, at as int),
{
    if needle.len() > hay.len() || at > hay.len() - needle.len() {
        return false;
    }
    let mut i: usize = 0;
    while i < needle.len()
        invariant
            i <= needle.len(),
            at + needle.len() <= hay.len(),
            forall|j: int| 0 <= j < i ==> hay@[at + j] == needle@[j],
        decreases needle.len() - i,
    {
        if hay[at + i] != needle[i] {
            assert(hay@.subrange(at as int, at + needle.len())[i as int] != needle@[i as int]);
            return false;
        }
        i += 1;
    }
    assert(hay@.subrange(at as int, at + needle.len()) =~= needle@);
    true
}

/// Whether `hay` begins with `needle`.
pub fn starts_with(hay: &Vec<char>, needle: &Vec<char>) -> (r: bool)
    ensures
        r == needle@.is_prefix_of(hay@),
{
    matches_at(hay, needle, 0)
}

/// Whether `needle` is a contiguous part of `hay`.
pub fn contains(hay: &Vec<char>, needle: &Vec<char>) -> (found: bool)
    ensures
        found == occurs_in(needle@, hay@),
{
    if needle.len() > hay.len() {
        return false;
    }
    let last: usize = hay.len() - needle.len();
    let mut at: usize = 0;
    loop
        invariant
            last == hay.len() - needle.len(),
            at <= last,
            forall|k: int| 0 <= k < at ==> !occurs_at(needle@, hay@, k),
        decreases last - at,
    {
        if matches_at(hay, needle, at) {
            return true;
        }
        if at == last {
            return false;
        }
        at += 1;
    }
}

/// The words of `text`: its maximal runs of characters that are not
/// whitespace, in order.
pub open spec fn words(text: Seq<char>) -> Seq<Seq<char>>
    decreases text.len(),
{
    if text.len() == 0 {
        Seq::empty()
    } else {
        let before = text.drop_last();
        let earlier = words(before);
        if is_whitespace(text.last()) {
            earlier
        } else if before.len() > 0 && !is_whitespace(before.last()) {
            earlier.drop_last().push(earlier.last().push(text.last()))
        } else {
            earlier.push(seq![text.last()])
        }
    }
}

/// The words joined by single spaces.
pub open spec fn joined(words: Seq<Seq<char>>) -> Seq<char>
    decreases words.len(),
{
    if words.len() == 0 {
        Seq::empty()
    } else if words.len() == 1 {
        words[0]
    } else {
        joined(words.drop_last()).push(' ') + words.last()
    }
}

/// On a vector of characters the deep view is the view.
pub proof fn lemma_chars_deep_view(chars: Vec<char>)
    ensures
        chars.deep_view() == chars@,
{
    assert(chars.deep_view() =~= chars@);
}

/// The words of a text, in order.
pub fn split_words(chars: &Vec<char>) -> (out: Vec<Vec<char>>)
    ensures
        out.deep_view() == words(chars@),
{
    let mut done: Vec<Vec<char>> = Vec::new();
    let mut current: Vec<char> = Vec::new();
    let mut i: usize = 0;
    assert(chars@.take(0) =~= Seq::<char>::empty());
    assert(done.deep_view() =~= Seq::<Seq<char>>::empty());
    while i < chars.len()
        invariant
            i <= chars.len(),
            current@.len() > 0 ==> i > 0 && !is_whitespace(chars@[i - 1]) && words(
                chars@.take(i as int),
            ) == done.deep_view().push(current@),
            current@.len() == 0 ==> (i == 0 || is_whitespace(chars@[i - 1])) && words(
                chars@.take(i as int),
            ) == done.deep_view(),
        decreases chars.len() - i,
    {
        let c = chars[i];
        proof {
            let next = chars@.take(i + 1);
            assert(next.drop_last() =~= chars@.take(i as int));
            assert(next.last() == c);
            if i > 0 {
                assert(chars@.take(i as int).last() == chars@[i - 1]);
            }
        }
        let ghost before = done.deep_view();
        if whitespace(c) {
            if current.len() > 0 {
                let ghost word = current@;
                proof {
                    lemma_chars_deep_view(current);
                }
                done.push(current);
                current = Vec::new();
                assert(done.deep_view() =~= before.push(word));
            }
        } else {
            proof {
                if current@.len() > 0 {
                    let earlier = before.push(current@);
                    assert(earlier.drop_last() =~= before);
                    assert(earlier.last() == current@);
                }
            }
            current.push(c);
            assert(current@.len() == 1 ==> current@ =~= seq![c]);
        }
        i += 1;
    }
    assert(chars@.take(chars.len() as int) =~= chars@);
    if current.len() > 0 {
        let ghost before = done.deep_view();
        let ghost word = current@;
        proof {
            lemma_chars_deep_view(current);
        }
        done.push(current);
        assert(done.deep_view() =~= before.push(word));
    }
    done
}

/// The words joined by single spaces.
pub fn join_words(words: &Vec<Vec<char>>) -> (out: Vec<char>)
    ensures
        out@ == joined(words.deep_view()),
{
    let mut out: Vec<char> = Vec::new();
    let mut i: usize = 0;
    assert(words.deep_view().take(0) =~= Seq::<Seq<char>>::empty());
    while i < words.len()
        invariant
            i <= words.len(),
            out@ == joined(words.deep_view().take(i as int)),
        decreases words.len() - i,
    {
        let ghost upto = words.deep_view().take(i + 1);
        proof {
            assert(upto.drop_last() =~= words.deep_view().take(i as int));
            lemma_chars_deep_view(words@[i as int]);
            assert(upto.last() == words@[i as int]@);
            if i == 0 {
                assert(upto[0] == words@[0]@);
            }
        }
        if i > 0 {
            out.push(' ');
        }
        let word = &words[i];
        let mut j: usize = 0;
        let ghost start = out@;
        while j < word.len()
            invariant
                j <= word.len(),
                out@ == start + word@.take(j as int),
            decreases word.len() - j,
        {
            out.push(word[j]);
            assert(word@.take(j + 1) =~= word@.take(j as int).push(word@[j as int]));
            j += 1;
        }
        assert(word@.take(word.len() as int) =~= word@);
        assert(i == 0 ==> out@ =~= word@);
        i += 1;
    }
    assert(words.deep_view().take(words.len() as int) =~= words.deep_view());
    out
}

/// The decimal digit for `d`, where `0 <= d < 10`.
pub open spec fn digit(d: int) -> char {
    ((48 + d) as u8) as char
}

/// The decimal digits of `n`, most significant first, without leading zeros.
pub open spec fn digits(n: nat) -> Seq<char>
    decreases n,
{
    if n < 10 {
        seq![digit(n as int)]
    } else {
        digits(n / 10).push(digit((n % 10) as int))
    }
}

/// The decimal text of `n`, with a leading `-` when it is negative.
pub open spec fn decimal(n: int) -> Seq<char> {
    if n < 0 {
        seq!['-'] + digits((-n) as nat)
    } else {
        digits(n as nat)
    }
}

/// `text` without its trailing run of `c`.
pub open spec fn without_trailing(text: Seq<char>, c: char) -> Seq<char>
    decreases text.len(),
{
    if text.len() > 0 && text.last() == c {
        without_trailing(text.drop_last(), c)
    } else {
        text
    }
}

/// `hay` with every occurrence of `pattern` replaced by `with`, scanning from
/// the left and resuming after each replaced occurrence. An empty pattern
/// replaces nothing.
pub open spec fn replaced(hay: Seq<char>, pattern: Seq<char>, with: Seq<char>) -> Seq<char>
    decreases hay.len(),
{
    if pattern.len() == 0 || hay.len() < pattern.len() {
        hay
    } else if occurs_at(pattern, hay, 0) {
        with + replaced(hay.skip(pattern.len() as int), pattern, with)
    } else {
        seq![hay[0]] + replaced(hay.drop_first(), pattern, with)
    }
}

fn push_digits(n: u64, out: &mut Vec<char>)
    ensures
        final(out)@ == old(out)@ + digits(n as nat),
    decreases n,
{
    if n >= 10 {
        push_digits(n / 10, out);
    }
    let low: u8 = (n % 10) as u8;
    out.push((48u8 + low) as char);
    proof {
        if n >= 10 {
            assert(final(out)@ =~= old(out)@ + digits((n / 10) as nat).push(
                digit((n % 10) as int),
            ));
        } else {
            assert(final(out)@ =~= old(out)@ + seq![digit(n as int)]);
        }
    }
}

/// The decimal text of `value`.
pub fn render_integer(value: i64) -> (text: Vec<char>)
    ensures
        text@ == decimal(value as int),
{
    let mut text: Vec<char> = Vec::new();
    if value < 0 {
        text.push('-');
        let magnitude: u64 = (-(value + 1)) as u64 + 1;
        push_digits(magnitude, &mut text);
    } else {
        push_digits(value as u64, &mut text);
    }
    assert(value >= 0 ==> text@ =~= digits(value as nat));
    text
}

/// Removes the trailing run of `c` from `text`.
pub fn trim_trailing(text: &mut Vec<char>, c: char)
    ensures
        final(text)@ == without_trailing(old(text)@, c),
{
    while text.len() > 0 && text[text.len() - 1] == c
        invariant
            without_trailing(text@, c) == without_trailing(old(text)@, c),
        decreases text.len(),
    {
        text.pop();
    }
}

/// `hay` with every occurrence of `pattern` replaced by `with`.
pub fn replace(hay: &Vec<char>, pattern: &Vec<char>, with: &Vec<char>) -> (out: Vec<char>)
    ensures
        out@ == replaced(hay@, pattern@, with@),
{
    let mut out: Vec<char> = Vec::new();
    let mut i: usize = 0;
    assert(hay@.skip(0) =~= hay@);
    while i < hay.len()
        invariant
            i <= hay.len(),
            out@ + replaced(hay@.skip(i as int), pattern@, with@) == replaced(
                hay@,
                pattern@,
                with@,
            ),
        decreases hay.len() - i,
    {
        let ghost rest = hay@.skip(i as int);
        if pattern.len() > 0 && matches_at(hay, pattern, i) {
            proof {
                assert(rest.subrange(0, pattern.len() as int) =~= hay@.subrange(
                    i as int,
                    i + pattern.len(),
                ));
                assert(rest.skip(pattern.len() as int) =~= hay@.skip(i + pattern.len()));
            }
            let ghost start = out@;
            let mut j: usize = 0;
            while j < with.len()
                invariant
                    j <= with.len(),
                    out@ == start + with@.take(j as int),
                decreases with.len() - j,
            {
                out.push(with[j]);
                assert(with@.take(j + 1) =~= with@.take(j as int).push(with@[j as int]));
                j += 1;
            }
            assert(with@.take(with.len() as int) =~= with@);
            assert(out@ + replaced(hay@.skip(i + pattern.len()), pattern@, with@) =~= start
                + replaced(rest, pattern@, with@));
            i += pattern.len();
        } else {
            proof {
                assert(rest.drop_first() =~= hay@.skip(i + 1));
                if pattern.len() > 0 && rest.len() >= pattern.len() {
                    assert(rest.subrange(0, pattern.len() as int) =~= hay@.subrange(
                        i as int,
                        i + pattern.len(),
                    ));
                } else {
                    lemma_replaced_short(rest, pattern@, with@);
                }
            }
            let ghost start = out@;
            out.push(hay[i]);
            assert(out@ + replaced(hay@.skip(i + 1), pattern@, with@) =~= start + replaced(
                rest,
                pattern@,
                with@,
            ));
            i += 1;
        }
    }
    assert(hay@.skip(hay.len() as int) =~= Seq::<char>::empty());
    assert(out@ =~= out@ + Seq::<char>::empty());
    out
}

/// Where the pattern is empty or longer than the text, nothing is replaced,
/// which is also what replacing behind the first character gives.
proof fn lemma_replaced_short(hay: Seq<char>, pattern: Seq<char>, with: Seq<char>)
    requires
        hay.len() > 0,
        pattern.len() == 0 || hay.len() < pattern.len(),
    ensures
        replaced(hay, pattern, with) == seq![hay[0]] + replaced(hay.drop_first(), pattern, with),
{
    assert(hay =~= seq![hay[0]] + hay.drop_first());
}

/// Whether `a` comes before `b`, or equals it, in the lexicographic order of
/// their characters' code points: the order in which strings compare.
pub open spec fn in_order(a: Seq<char>, b: Seq<char>) -> bool
    decreases a.len(),
{
    if a.len() == 0 {
        true
    } else if b.len() == 0 {
        false
    } else if a[0] != b[0] {
        a[0] < b[0]
    } else {
        in_order(a.drop_first(), b.drop_first())
    }
}

/// Any two texts are in order one way or the other.
pub proof fn lemma_in_order_total(a: Seq<char>, b: Seq<char>)
    ensures
        in_order(a, b) || in_order(b, a),
    decreases a.len(),
{
    if a.len() > 0 && b.len() > 0 {
        if a[0] == b[0] {
            lemma_in_order_total(a.drop_first(), b.drop_first());
        }
    }
}

/// The order is transitive.
pub proof fn lemma_in_order_transitive(a: Seq<char>, b: Seq<char>, c: Seq<char>)
    requires
        in_order(a, b),
        in_order(b, c),
    ensures
        in_order(a, c),
    decreases a.len(),
{
    if a.len() > 0 && b.len() > 0 && c.len() > 0 && a[0] == b[0] && b[0] == c[0] {
        lemma_in_order_transitive(a.drop_first(), b.drop_first(), c.drop_first());
    }
}

/// Texts in order both ways are equal.
pub proof fn lemma_in_order_antisymmetric(a: Seq<char>, b: Seq<char>)
    requires
        in_order(a, b),
        in_order(b, a),
    ensures
        a == b,
    decreases a.len(),
{
    if a.len() > 0 && b.len() > 0 {
        lemma_in_order_antisymmetric(a.drop_first(), b.drop_first());
        assert(a =~= seq![a[0]] + a.drop_first());
        assert(b =~= seq![b[0]] + b.drop_first());
    } else {
        assert(a =~= b);
    }
}

proof fn lemma_in_order_skip(a: Seq<char>, b: Seq<char>, n: int)
    requires
        0 <= n <= a.len(),
        n <= b.len(),
        a.take(n) == b.take(n),
    ensures
        in_order(a, b) == in_order(a.skip(n), b.skip(n)),
    decreases n,
{
    if n == 0 {
        assert(a.skip(0) =~= a);
        assert(b.skip(0) =~= b);
    } else {
        assert(a[0] == a.take(n)[0]);
        assert(b[0] == b.take(n)[0]);
        assert(a.drop_first().take(n - 1) =~= a.take(n).drop_first());
        assert(b.drop_first().take(n - 1) =~= b.take(n).drop_first());
        lemma_in_order_skip(a.drop_first(), b.drop_first(), n - 1);
        assert(a.drop_first().skip(n - 1) =~= a.skip(n));
        assert(b.drop_first().skip(n - 1) =~= b.skip(n));
    }
}

/// Whether `a` comes before `b` or equals it.
pub fn ordered(a: &Vec<char>, b: &Vec<char>) -> (r: bool)
    ensures
        r == in_order(a@, b@),
{
    let mut i: usize = 0;
    assert(a@.take(0) =~= b@.take(0));
    loop
        invariant
            i <= a.len(),
            i <= b.len(),
            a@.take(i as int) == b@.take(i as int),
        decreases a.len() - i,
    {
        proof {
            lemma_in_order_skip(a@, b@, i as int);
        }
        if i == a.len() {
            return true;
        }
        if i == b.len() {
            return false;
        }
        proof {
            assert(a@.skip(i as int)[0] == a@[i as int]);
            assert(b@.skip(i as int)[0] == b@[i as int]);
        }
        if a[i] != b[i] {
            return a[i] < b[i];
        }
        assert(a@.take(i + 1) =~= a@.take(i as int).push(a@[i as int]));
        assert(b@.take(i + 1) =~= b@.take(i as int).push(b@[i as int]));
        i += 1;
    }
}

/// Whether two texts hold the same characters.
pub fn same_chars(left: &Vec<char>, right: &Vec<char>) -> (r: bool)
    ensures
        r == (left@ == right@),
{
    if left.len() != right.len() {
        return false;
    }
    let mut i: usize = 0;
    while i < left.len()
        invariant
            i <= left.len(),
            left.len() == right.len(),
            forall|j: int| 0 <= j < i ==> left@[j] == right@[j],
        decreases left.len() - i,
    {
        if left[i] != right[i] {
            return false;
        }
        i += 1;
    }
    assert(left@ =~= right@);
    true
}

/// Whether two strings hold the same characters.
pub fn same_text(a: &str, b: &str) -> (r: bool)
    ensures
        r == (a@ == b@),
{
    same_chars(&chars_of(a), &chars_of(b))
}

/// Whether `word` can stand as one word: it is not empty and holds no
/// whitespace.
pub open spec fn is_word(word: Seq<char>) -> bool {
    &&& word.len() > 0
    &&& forall|i: int| 0 <= i < word.len() ==> !is_whitespace(#[trigger] word[i])
}

/// Each word of a text is a word, and a text that ends outside whitespace
/// has a last word that ends with the text's last character.
pub proof fn lemma_words_are_words(text: Seq<char>)
    ensures
        forall|i: int| 0 <= i < words(text).len() ==> is_word(#[trigger] words(text)[i]),
        text.len() > 0 && !is_whitespace(text.last()) ==> words(text).len() > 0,
    decreases text.len(),
{
    if text.len() > 0 {
        let before = text.drop_last();
        lemma_words_are_words(before);
        let earlier = words(before);
        if !is_whitespace(text.last()) && before.len() > 0 && !is_whitespace(before.last()) {
            let grown = earlier.last().push(text.last());
            assert(is_word(earlier.last()));
            assert forall|j: int| 0 <= j < grown.len() implies !is_whitespace(
                #[trigger] grown[j],
            ) by {
                if j < grown.len() - 1 {
                    assert(grown[j] == earlier.last()[j]);
                }
            }
            assert(is_word(grown));
            assert forall|i: int| 0 <= i < words(text).len() implies is_word(
                #[trigger] words(text)[i],
            ) by {
                if i < earlier.len() - 1 {
                    assert(words(text)[i] == earlier[i]);
                }
            }
        } else if !is_whitespace(text.last()) {
            assert(is_word(seq![text.last()]));
            assert forall|i: int| 0 <= i < words(text).len() implies is_word(
                #[trigger] words(text)[i],
            ) by {
                if i < earlier.len() {
                    assert(words(text)[i] == earlier[i]);
                }
            }
        }
    }
}

/// A word written behind a text that is empty or ends in whitespace is one
/// more word of the whole.
pub proof fn lemma_words_append(text: Seq<char>, word: Seq<char>)
    requires
        is_word(word),
        text.len() == 0 || is_whitespace(text.last()),
    ensures
        words(text + word) == words(text).push(word),
    decreases word.len(),
{
    let whole = text + word;
    assert(whole.last() == word.last());
    if word.len() == 1 {
        assert(whole.drop_last() =~= text);
        assert(word =~= seq![word.last()]);
    } else {
        let shorter = word.drop_last();
        assert(is_word(shorter)) by {
            assert forall|i: int| 0 <= i < shorter.len() implies !is_whitespace(
                #[trigger] shorter[i],
            ) by {
                assert(shorter[i] == word[i]);
            }
        }
        lemma_words_append(text, shorter);
        assert(whole.drop_last() =~= text + shorter);
        assert((text + shorter).last() == shorter.last());
        assert(shorter.last() == word[word.len() - 2]);
        let earlier = words(text).push(shorter);
        assert(earlier.drop_last() =~= words(text));
        assert(shorter.push(word.last()) =~= word);
    }
}

/// Splitting what joining made gives the words back.
pub proof fn lemma_words_of_joined(list: Seq<Seq<char>>)
    requires
        forall|i: int| 0 <= i < list.len() ==> is_word(#[trigger] list[i]),
    ensures
        words(joined(list)) == list,
        list.len() > 0 ==> joined(list).len() > 0,
    decreases list.len(),
{
    if list.len() == 0 {
        assert(words(joined(list)) =~= list);
    } else if list.len() == 1 {
        assert(is_word(list[0]));
        lemma_words_append(Seq::empty(), list[0]);
        assert(Seq::<char>::empty() + list[0] =~= list[0]);
        assert(Seq::<Seq<char>>::empty().push(list[0]) =~= list);
    } else {
        let init = list.drop_last();
        assert forall|i: int| 0 <= i < init.len() implies is_word(#[trigger] init[i]) by {
            assert(init[i] == list[i]);
        }
        lemma_words_of_joined(init);
        let head = joined(init).push(' ');
        assert(head.drop_last() =~= joined(init));
        assert(is_whitespace(' '));
        assert(words(head) == init);
        assert(is_word(list.last()));
        lemma_words_append(head, list.last());
        assert(init.push(list.last()) =~= list);
    }
}

/// `c` with an ASCII capital turned into its small letter.
pub open spec fn ascii_lowered(c: char) -> char {
    if 'A' <= c <= 'Z' {
        ((c as u8) + 32) as char
    } else {
        c
    }
}

/// `text` with its ASCII capitals turned into small letters, character by
/// character.
pub open spec fn folded(text: Seq<char>) -> Seq<char> {
    Seq::new(text.len(), |i: int| ascii_lowered(text[i]))
}

/// A text that is part of another stays part of it when both are folded.
pub proof fn lemma_folded_occurrence(needle: Seq<char>, hay: Seq<char>)
    requires
        occurs_in(needle, hay),
    ensures
        occurs_in(folded(needle), folded(hay)),
{
    let at = choose|at: int| occurs_at(needle, hay, at);
    assert forall|i: int| 0 <= i < needle.len() implies folded(hay)[at + i] == folded(
        needle,
    )[i] by {
        assert(hay.subrange(at, at + needle.len())[i] == needle[i]);
    }
    assert(folded(hay).subrange(at, at + folded(needle).len()) =~= folded(needle));
    assert(occurs_at(folded(needle), folded(hay), at));
}

/// `c` with an ASCII capital turned into its small letter.
pub fn lower_ascii(c: char) -> (r: char)
    ensures
        r == ascii_lowered(c),
{
    if 'A' <= c && c <= 'Z' {
        ((c as u8) + 32) as char
    } else {
        c
    }
}

/// The characters of `text`, folded.
pub fn fold_case(text: &str) -> (chars: Vec<char>)
    ensures
        chars@ == folded(text@),
{
    let plain = chars_of(text);
    let mut chars: Vec<char> = Vec::new();
    let mut i: usize = 0;
    while i < plain.len()
        invariant
            i <= plain.len(),
            plain@ == text@,
            chars@ == folded(text@).take(i as int),
        decreases plain.len() - i,
    {
        chars.push(lower_ascii(plain[i]));
        assert(chars@ =~= folded(text@).take(i + 1));
        i += 1;
    }
    assert(folded(text@).take(plain.len() as int) =~= folded(text@));
    chars
}

/// A text in which the pattern does not occur is left as it is.
pub proof fn lemma_replaced_nothing(hay: Seq<char>, pattern: Seq<char>, with: Seq<char>)
    requires
        !occurs_in(pattern, hay),
    ensures
        replaced(hay, pattern, with) == hay,
    decreases hay.len(),
{
    if pattern.len() > 0 && hay.len() >= pattern.len() {
        assert(!occurs_at(pattern, hay, 0));
        let rest = hay.drop_first();
        assert forall|at: int| !occurs_at(pattern, rest, at) by {
            if occurs_at(pattern, rest, at) {
                assert(hay.subrange(at + 1, at + 1 + pattern.len()) =~= rest.subrange(
                    at,
                    at + pattern.len(),
                ));
                assert(occurs_at(pattern, hay, at + 1));
            }
        }
        lemma_replaced_nothing(rest, pattern, with);
        assert(hay =~= seq![hay[0]] + rest);
    }
}

/// A text that holds the pattern once has that one occurrence replaced:
/// where the pattern stands behind `before`, occurs nowhere earlier, and does
/// not occur in `after`, the result is `before`, then `with`, then `after`.
pub proof fn lemma_replaced_once(
    before: Seq<char>,
    after: Seq<char>,
    pattern: Seq<char>,
    with: Seq<char>,
)
    requires
        pattern.len() > 0,
        forall|at: int|
            0 <= at < before.len() ==> !occurs_at(pattern, before + pattern + after, at),
        !occurs_in(pattern, after),
    ensures
        replaced(before + pattern + after, pattern, with) == before + with + after,
    decreases before.len(),
{
    let hay = before + pattern + after;
    if before.len() == 0 {
        assert(hay.subrange(0, pattern.len() as int) =~= pattern);
        assert(occurs_at(pattern, hay, 0));
        assert(hay.skip(pattern.len() as int) =~= after);
        lemma_replaced_nothing(after, pattern, with);
        assert(with + after =~= before + with + after);
    } else {
        assert(!occurs_at(pattern, hay, 0));
        let shorter = before.drop_first();
        assert(hay.drop_first() =~= shorter + pattern + after);
        assert forall|at: int| 0 <= at < shorter.len() implies !occurs_at(
            pattern,
            shorter + pattern + after,
            at,
        ) by {
            if occurs_at(pattern, shorter + pattern + after, at) {
                assert(hay.subrange(at + 1, at + 1 + pattern.len()) =~= (shorter + pattern
                    + after).subrange(at, at + pattern.len()));
                assert(occurs_at(pattern, hay, at + 1));
            }
        }
        lemma_replaced_once(shorter, after, pattern, with);
        assert(hay[0] == before[0]);
        assert(seq![before[0]] + (shorter + with + after) =~= before + with + after);
    }
}

/// Whether the characters of `name` stand in `text` in their order, next to
/// one another or apart.
pub open spec fn is_scattered_in(name: Seq<char>, text: Seq<char>) -> bool
    decreases text.len(),
{
    if name.len() == 0 {
        true
    } else if text.len() == 0 {
        false
    } else if name.last() == text.last() {
        is_scattered_in(name.drop_last(), text.drop_last())
    } else {
        is_scattered_in(name, text.drop_last())
    }
}

/// Whether the characters of `name` stand in `text` in their order.
pub fn scattered_in(name: &Vec<char>, text: &Vec<char>) -> (r: bool)
    ensures
        r == is_scattered_in(name@, text@),
{
    let mut j: usize = name.len();
    let mut i: usize = text.len();
    proof {
        assert(name@.take(j as int) =~= name@);
        assert(text@.take(i as int) =~= text@);
    }
    while j > 0 && i > 0
        invariant
            j <= name.len(),
            i <= text.len(),
            is_scattered_in(name@, text@) == is_scattered_in(
                name@.take(j as int),
                text@.take(i as int),
            ),
        decreases i,
    {
        proof {
            assert(name@.take(j as int).last() == name@[j - 1]);
            assert(text@.take(i as int).last() == text@[i - 1]);
            assert(name@.take(j as int).drop_last() =~= name@.take(j - 1));
            assert(text@.take(i as int).drop_last() =~= text@.take(i - 1));
        }
        if name[j - 1] == text[i - 1] {
            j -= 1;
        }
        i -= 1;
    }
    j == 0
}

} // verus!
