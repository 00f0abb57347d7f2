//! Decimal numerals, dotted names and lists of texts.
use vstd::prelude::*;

verus! {

/// The character of a decimal digit.
pub open spec fn digit(d: nat) -> char {
    (('0' as u8) + d) as char
}

/// The decimal numeral of `n`, without leading zeros.
pub open spec fn numeral(n: nat) -> Seq<char>
    decreases n,
{
    if n < 10 {
        seq![digit(n)]
    } else {
        numeral(n / 10).push(digit(n % 10))
    }
}

/// Different numbers have different numerals.
pub proof fn numerals_are_distinct(a: nat, b: nat)
    requires
        numeral(a) == numeral(b),
    ensures
        a == b,
    decreases a,
{
    let (x, y) = (numeral(a), numeral(b));
    numeral_is_not_empty(a / 10);
    numeral_is_not_empty(b / 10);
    assert(x.last() == digit(a % 10));
    assert(y.last() == digit(b % 10));
    if a >= 10 && b >= 10 {
        assert(x.drop_last() =~= numeral(a / 10));
        assert(y.drop_last() =~= numeral(b / 10));
        numerals_are_distinct(a / 10, b / 10);
    }
}

/// The number that digits stand for, with the units last.
pub open spec fn value_of(digits: Seq<char>) -> int
    decreases digits.len(),
{
    if digits.len() == 0 {
        0
    } else {
        10 * value_of(digits.drop_last()) + (digits.last() as int - '0' as int)
    }
}

/// A numeral stands for its number, and has no zeros in front.
pub proof fn numerals_read_back(n: nat)
    ensures
        value_of(numeral(n)) == n,
        numeral(n).len() > 0,
        n > 0 ==> numeral(n)[0] != '0',
    decreases n,
{
    let s = numeral(n);
    if n < 10 {
        assert(s.drop_last() =~= Seq::empty());
        assert(value_of(s.drop_last()) == 0);
        assert(s.last() == digit(n));
    } else {
        numerals_read_back(n / 10);
        assert(s.drop_last() =~= numeral(n / 10));
        assert(s[0] == numeral(n / 10)[0]);
    }
}

proof fn numeral_is_not_empty(n: nat)
    ensures
        numeral(n).len() > 0,
{
}

/// A numeral consists of digits, so it holds no dot.
pub proof fn numeral_has_no_dot(n: nat)
    ensures
        !numeral(n).contains('.'),
    decreases n,
{
    if n >= 10 {
        numeral_has_no_dot(n / 10);
    }
    let s = numeral(n);
    assert forall|i: int| 0 <= i < s.len() implies s[i] != '.' by {
        if n >= 10 && i < s.len() - 1 {
            assert(s[i] == numeral(n / 10)[i]);
            if s[i] == '.' {
                assert(numeral(n / 10).contains('.'));
            }
        }
    }
}

/// Where two texts are split at a dot and neither front part holds one, equal
/// texts have equal parts.
pub proof fn split_at_dot_is_unique(a: Seq<char>, b: Seq<char>, c: Seq<char>, d: Seq<char>)
    requires
        !a.contains('.'),
        !c.contains('.'),
        a.push('.') + b == c.push('.') + d,
    ensures
        a == c,
        b == d,
{
    let s = a.push('.') + b;
    let t = c.push('.') + d;
    assert(s[a.len() as int] == '.');
    assert(t[c.len() as int] == '.');
    if a.len() < c.len() {
        assert(c[a.len() as int] == t[a.len() as int]);
        assert(c.contains('.'));
    }
    if c.len() < a.len() {
        assert(a[c.len() as int] == s[c.len() as int]);
        assert(a.contains('.'));
    }
    assert(a =~= c) by {
        assert forall|i: int| 0 <= i < a.len() implies a[i] == c[i] by {
            assert(a[i] == s[i] && c[i] == t[i]);
        }
    }
    assert(s.len() == a.len() + 1 + b.len());
    assert(t.len() == c.len() + 1 + d.len());
    assert(b =~= d) by {
        assert forall|i: int| 0 <= i < b.len() implies b[i] == d[i] by {
            assert(b[i] == s[a.len() + 1 + i] && d[i] == t[a.len() + 1 + i]);
        }
    }
}

fn digit_text(d: usize) -> (r: &'static str)
    requires
        d < 10,
    ensures
        r@ == seq![digit(d as nat)],
{
    proof {
        reveal_strlit("0");
        reveal_strlit("1");
        reveal_strlit("2");
        reveal_strlit("3");
        reveal_strlit("4");
        reveal_strlit("5");
        reveal_strlit("6");
        reveal_strlit("7");
        reveal_strlit("8");
        reveal_strlit("9");
    }
    let r: &'static str = match d {
        0 => "0",
        1 => "1",
        2 => "2",
        3 => "3",
        4 => "4",
        5 => "5",
        6 => "6",
        7 => "7",
        8 => "8",
        _ => "9",
    };
    assert(r@ =~= seq![digit(d as nat)]);
    r
}

/// The decimal numeral of `n`.
pub fn numeral_text(n: usize) -> (r: String)
    ensures
        r@ == numeral(n as nat),
{
    long_numeral_text(n as u64)
}

/// The decimal numeral of `n`.
pub fn long_numeral_text(n: u64) -> (r: String)
    ensures
        r@ == numeral(n as nat),
    decreases n,
{
    if n < 10 {
        digit_text(n as usize).to_owned()
    } else {
        let mut text: String = long_numeral_text(n / 10);
        text.append(digit_text((n % 10) as usize));
        assert(text@ =~= numeral(n as nat));
        text
    }
}

/// A text with another one behind it.
pub(crate) fn followed_by(text: String, more: &str) -> (r: String)
    ensures
        r@ == text@ + more@,
{
    let mut out: String = text;
    out.append(more);
    out
}

/// A text with a numeral behind it.
pub(crate) fn followed_by_count(text: String, n: usize) -> (r: String)
    ensures
        r@ == text@ + numeral(n as nat),
{
    followed_by(text, numeral_text(n).as_str())
}

/// Numerals with commas between them.
pub open spec fn counts_listed(counts: Seq<usize>) -> Seq<char>
    decreases counts.len(),
{
    if counts.len() == 0 {
        Seq::empty()
    } else if counts.len() == 1 {
        numeral(counts[0] as nat)
    } else {
        counts_listed(counts.drop_last()) + ", "@ + numeral(counts.last() as nat)
    }
}

/// Numbers in brackets, with commas between them.
pub open spec fn bracketed(counts: Seq<usize>) -> Seq<char> {
    "["@ + counts_listed(counts) + "]"@
}

pub(crate) fn bracketed_text(counts: &[usize]) -> (r: String)
    ensures
        r@ == bracketed(counts@),
{
    let mut inner: String = "".to_owned();
    let mut i: usize = 0;
    proof {
        reveal_strlit("");
        assert(inner@ =~= Seq::empty());
        assert(counts@.take(0) =~= Seq::empty());
    }
    while i < counts.len()
        invariant
            i <= counts@.len(),
            inner@ == counts_listed(counts@.take(i as int)),
        decreases counts@.len() - i,
    {
        if i > 0 {
            inner.append(", ");
        }
        inner.append(numeral_text(counts[i]).as_str());
        proof {
            let more = counts@.take(i + 1);
            assert(more.drop_last() =~= counts@.take(i as int));
            if i == 0 {
                assert(inner@ =~= numeral(counts@[0] as nat));
            }
        }
        i = i + 1;
    }
    assert(counts@.take(i as int) =~= counts@);
    followed_by(joined("[", inner.as_str()), "]")
}

/// What the `Debug` formatting of `str` makes of a text: the text in quotation
/// marks, with escapes for what cannot be printed.
pub uninterp spec fn quoted(text: Seq<char>) -> Seq<char>;

/// The standard library's `Debug` formatting of `str`. Its result is taken to depend
/// on the text alone; which characters it escapes, and how, is left open.
#[verifier::external_body]
fn quote(text: &str) -> (r: String)
    ensures
        r@ == quoted(text@),
{
    format!("{:?}", text)
}

/// Texts in quotation marks, with commas between them.
pub open spec fn quoted_list(texts: Seq<Seq<char>>) -> Seq<char>
    decreases texts.len(),
{
    if texts.len() == 0 {
        Seq::empty()
    } else if texts.len() == 1 {
        quoted(texts[0])
    } else {
        quoted_list(texts.drop_last()) + ", "@ + quoted(texts.last())
    }
}

/// Texts in quotation marks, with commas between them and brackets around them.
pub open spec fn bracketed_texts(texts: Seq<Seq<char>>) -> Seq<char> {
    "["@ + quoted_list(texts) + "]"@
}

pub(crate) fn list_quoted(texts: &Vec<String>) -> (r: String)
    ensures
        r@ == bracketed_texts(text_models(texts@)),
{
    let ghost all = text_models(texts@);
    let mut inner: String = "".to_owned();
    let mut i: usize = 0;
    proof {
        reveal_strlit("");
        assert(inner@ =~= Seq::empty());
        assert(all.take(0) =~= Seq::empty());
    }
    while i < texts.len()
        invariant
            all == text_models(texts@),
            i <= texts@.len(),
            inner@ == quoted_list(all.take(i as int)),
        decreases texts@.len() - i,
    {
        if i > 0 {
            inner.append(", ");
        }
        inner.append(quote(texts[i].as_str()).as_str());
        proof {
            let more = all.take(i + 1);
            assert(more.drop_last() =~= all.take(i as int));
            assert(more.last() == texts@[i as int]@);
            if i == 0 {
                assert(inner@ =~= quoted(all[0]));
            }
        }
        i = i + 1;
    }
    assert(all.take(i as int) =~= all);
    followed_by(joined("[", inner.as_str()), "]")
}

/// A truth value as a word.
pub open spec fn truth(value: bool) -> Seq<char> {
    if value {
        "true"@
    } else {
        "false"@
    }
}

pub(crate) fn truth_text(value: bool) -> (r: &'static str)
    ensures
        r@ == truth(value),
{
    if value {
        "true"
    } else {
        "false"
    }
}

/// `front` followed by `back`.
pub(crate) fn joined(front: &str, back: &str) -> (r: String)
    ensures
        r@ == front@ + back@,
{
    let mut text: String = front.to_owned();
    text.append(back);
    text
}

/// Whether two texts are equal.
pub(crate) fn same_text(a: &str, b: &str) -> (r: bool)
    ensures
        r == (a@ == b@),
{
    a.to_owned() == b.to_owned()
}

/// Whether text `a` comes before text `b` in the order of their characters.
pub open spec fn comes_before(a: Seq<char>, b: Seq<char>) -> bool
    decreases a.len(),
{
    if b.len() == 0 {
        false
    } else if a.len() == 0 {
        true
    } else if a[0] != b[0] {
        a[0] < b[0]
    } else {
        comes_before(a.drop_first(), b.drop_first())
    }
}

/// Of two different texts one comes before the other.
pub proof fn texts_are_ordered(a: Seq<char>, b: Seq<char>)
    ensures
        comes_before(a, b) || comes_before(b, a) || a == b,
    decreases a.len(),
{
    if a.len() > 0 && b.len() > 0 {
        texts_are_ordered(a.drop_first(), b.drop_first());
        if a[0] == b[0] && a.drop_first() == b.drop_first() {
            assert(a =~= seq![a[0]] + a.drop_first());
            assert(b =~= seq![b[0]] + b.drop_first());
        }
    } else if a.len() == 0 && b.len() == 0 {
        assert(a =~= b);
    }
}

/// A text that comes before another comes before all that follow that one.
pub proof fn text_order_is_transitive(a: Seq<char>, b: Seq<char>, c: Seq<char>)
    requires
        comes_before(a, b),
        comes_before(b, c),
    ensures
        comes_before(a, c),
    decreases a.len(),
{
    if a.len() > 0 && a[0] == b[0] && b[0] == c[0] {
        text_order_is_transitive(a.drop_first(), b.drop_first(), c.drop_first());
    }
}

/// No text comes before itself.
pub proof fn text_order_is_strict(a: Seq<char>)
    ensures
        !comes_before(a, a),
    decreases a.len(),
{
    if a.len() > 0 {
        text_order_is_strict(a.drop_first());
    }
}

/// Whether text `a` comes before text `b`.
pub fn is_before(a: &str, b: &str) -> (r: bool)
    ensures
        r == comes_before(a@, b@),
{
    let n: usize = a.unicode_len();
    let m: usize = b.unicode_len();
    let mut i: usize = 0;
    assert(a@.skip(0) =~= a@);
    assert(b@.skip(0) =~= b@);
    while i < n && i < m
        invariant
            n == a@.len(),
            m == b@.len(),
            i <= n,
            i <= m,
            comes_before(a@, b@) == comes_before(a@.skip(i as int), b@.skip(i as int)),
        decreases n - i,
    {
        let x: char = a.get_char(i);
        let y: char = b.get_char(i);
        if x != y {
            return x < y;
        }
        assert(a@.skip(i as int).drop_first() =~= a@.skip(i + 1));
        assert(b@.skip(i as int).drop_first() =~= b@.skip(i + 1));
        i = i + 1;
    }
    i < m
}

/// The contents of a list of texts.
pub open spec fn text_models(texts: Seq<String>) -> Seq<Seq<char>> {
    texts.map_values(|t: String| t@)
}

/// Whether each text of a list comes before the next ones.
pub open spec fn ascending(texts: Seq<Seq<char>>) -> bool {
    forall|i: int, j: int|
        0 <= i < j < texts.len() ==> comes_before(#[trigger] texts[i], #[trigger] texts[j])
}

/// Texts in ascending order, each once.
pub open spec fn ordered(texts: Set<Seq<char>>) -> Seq<Seq<char>> {
    choose|sorted: Seq<Seq<char>>| #[trigger] ascending(sorted) && sorted.to_set() == texts
}

proof fn ascending_texts_are_unique(a: Seq<Seq<char>>, b: Seq<Seq<char>>)
    requires
        ascending(a),
        ascending(b),
        a.to_set() == b.to_set(),
    ensures
        a == b,
    decreases a.len(),
{
    if a.len() == 0 {
        if b.len() > 0 {
            assert(b.to_set().contains(b[0]));
            assert(a.contains(b[0]));
        }
        assert(a =~= b);
    } else {
        assert(a.to_set().contains(a.last()));
        assert(b.contains(a.last()));
        let j = b.index_of(a.last());
        assert(b.to_set().contains(b.last()));
        assert(a.contains(b.last()));
        let i = a.index_of(b.last());
        if a.last() != b.last() {
            assert(comes_before(a[i], a[a.len() - 1]));
            assert(comes_before(b[j], b[b.len() - 1]));
            text_order_is_transitive(a.last(), b.last(), a.last());
            text_order_is_strict(a.last());
        }
        let (c, d) = (a.drop_last(), b.drop_last());
        assert forall|x: Seq<char>| c.to_set().contains(x) <==> d.to_set().contains(x) by {
            if c.contains(x) {
                let k = c.index_of(x);
                assert(a[k] == x);
                assert(a.to_set().contains(x));
                let l = b.index_of(x);
                if l == b.len() - 1 {
                    assert(comes_before(a[k], a[a.len() - 1]));
                    text_order_is_strict(x);
                }
                assert(d[l] == x);
            }
            if d.contains(x) {
                let k = d.index_of(x);
                assert(b[k] == x);
                assert(b.to_set().contains(x));
                let l = a.index_of(x);
                if l == a.len() - 1 {
                    assert(comes_before(b[k], b[b.len() - 1]));
                    text_order_is_strict(x);
                }
                assert(c[l] == x);
            }
        }
        assert(c.to_set() =~= d.to_set());
        ascending_texts_are_unique(c, d);
        assert(a =~= c.push(a.last()));
        assert(b =~= d.push(b.last()));
    }
}

/// Texts in ascending order are the ordered texts of their set.
pub proof fn ascending_texts_are_ordered(texts: Seq<Seq<char>>)
    requires
        ascending(texts),
    ensures
        ordered(texts.to_set()) == texts,
{
    ascending_texts_are_unique(ordered(texts.to_set()), texts);
}

/// Adds a text to texts in ascending order, if it is not there yet.
fn insert_text(texts: &mut Vec<String>, text: &str)
    requires
        ascending(text_models(old(texts)@)),
    ensures
        ascending(text_models(final(texts)@)),
        text_models(final(texts)@).to_set() == text_models(old(texts)@).to_set().insert(text@),
{
    let ghost before = text_models(texts@);
    let ghost new = text@;
    let mut position: usize = 0;
    while position < texts.len() && is_before(texts[position].as_str(), text)
        invariant
            before == text_models(texts@),
            new == text@,
            position <= texts@.len(),
            forall|i: int| 0 <= i < position ==> comes_before(#[trigger] before[i], new),
        decreases texts@.len() - position,
    {
        position = position + 1;
    }
    if position < texts.len() && same_text(texts[position].as_str(), text) {
        proof {
            assert(before[position as int] == new);
            assert(before.to_set().contains(new));
            assert(before.to_set() =~= before.to_set().insert(new));
        }
        return;
    }
    assert forall|i: int| position <= i < before.len() implies comes_before(
        new,
        #[trigger] before[i],
    ) by {
        let here = before[position as int];
        assert(here == texts@[position as int]@);
        texts_are_ordered(here, new);
        if i > position {
            text_order_is_transitive(new, here, before[i]);
        }
    }
    texts.insert(position, text.to_owned());
    proof {
        let after = text_models(texts@);
        assert(after =~= before.insert(position as int, new));
        assert forall|x: Seq<char>|
            after.to_set().contains(x) <==> before.to_set().insert(new).contains(x) by {
            if after.contains(x) {
                let i = after.index_of(x);
                if i < position {
                    assert(before[i] == x);
                } else if i > position {
                    assert(before[i - 1] == x);
                }
            }
            if before.contains(x) {
                let j = before.index_of(x);
                if j < position {
                    assert(after[j] == x);
                } else {
                    assert(after[j + 1] == x);
                }
            }
            assert(after[position as int] == new);
        }
        assert(after.to_set() =~= before.to_set().insert(new));
        assert forall|i: int, j: int| 0 <= i < j < after.len() implies comes_before(
            #[trigger] after[i],
            #[trigger] after[j],
        ) by {
            let a = if i <= position {
                i
            } else {
                i - 1
            };
            let b = if j <= position {
                j
            } else {
                j - 1
            };
            if i != position && j != position {
                assert(after[i] == before[a] && after[j] == before[b]);
            } else if i == position {
                assert(after[j] == before[b]);
            } else {
                assert(after[i] == before[a]);
            }
        }
    }
}

pub(crate) proof fn pushed_contains(texts: Seq<Seq<char>>, last: Seq<char>, x: Seq<char>)
    ensures
        texts.push(last).contains(x) <==> texts.contains(x) || x == last,
{
    let all = texts.push(last);
    if all.contains(x) {
        let i = all.index_of(x);
        if i < texts.len() {
            assert(texts[i] == x);
        }
    }
    if texts.contains(x) {
        let i = texts.index_of(x);
        assert(all[i] == x);
    }
    assert(all[texts.len() as int] == last);
}

/// Whether a text is one of some texts.
pub fn is_among(texts: &Vec<String>, text: &str) -> (r: bool)
    ensures
        r == text_models(texts@).contains(text@),
{
    let mut i: usize = 0;
    while i < texts.len()
        invariant
            i <= texts@.len(),
            forall|j: int| 0 <= j < i ==> #[trigger] text_models(texts@)[j] != text@,
        decreases texts@.len() - i,
    {
        assert(text_models(texts@)[i as int] == texts@[i as int]@);
        if same_text(texts[i].as_str(), text) {
            assert(text_models(texts@).contains(text@));
            return true;
        }
        i = i + 1;
    }
    false
}

/// The texts that are not among some others, in ascending order.
pub fn texts_without(texts: &Vec<String>, others: &Vec<String>) -> (r: Vec<String>)
    ensures
        text_models(r@) == ordered(
            text_models(texts@).to_set().difference(text_models(others@).to_set()),
        ),
        ascending(text_models(r@)),
        text_models(r@).to_set() == text_models(texts@).to_set().difference(
            text_models(others@).to_set(),
        ),
        r@.len() == 0 <==> forall|text: Seq<char>| #[trigger]
            text_models(texts@).contains(text) ==> text_models(others@).contains(text),
{
    let ghost all = text_models(texts@);
    let ghost gone = text_models(others@);
    let mut out: Vec<String> = Vec::new();
    let mut i: usize = 0;
    assert(text_models(out@).to_set() =~= all.take(0).to_set().difference(gone.to_set()));
    while i < texts.len()
        invariant
            all == text_models(texts@),
            gone == text_models(others@),
            i <= texts@.len(),
            ascending(text_models(out@)),
            text_models(out@).to_set() == all.take(i as int).to_set().difference(gone.to_set()),
        decreases texts@.len() - i,
    {
        let text: &String = &texts[i];
        let ghost before = text_models(out@).to_set();
        let ghost new = text@;
        assert(all[i as int] == new);
        assert(all.take(i + 1) =~= all.take(i as int).push(new));
        if !is_among(others, text.as_str()) {
            insert_text(&mut out, text.as_str());
        }
        assert forall|x: Seq<char>|
            text_models(out@).to_set().contains(x) <==> all.take(i + 1).to_set().difference(
                gone.to_set(),
            ).contains(x) by {
            pushed_contains(all.take(i as int), new, x);
            assert(before.contains(x) <==> all.take(i as int).to_set().contains(x)
                && !gone.to_set().contains(x));
        }
        assert(text_models(out@).to_set() =~= all.take(i + 1).to_set().difference(gone.to_set()));
        i = i + 1;
    }
    assert(all.take(i as int) =~= all);
    proof {
        let left = text_models(out@);
        ascending_texts_are_ordered(left);
        if out@.len() == 0 {
            assert forall|text: Seq<char>| #[trigger] all.contains(text) implies gone.contains(
                text,
            ) by {
                assert(!left.contains(text));
                assert(all.to_set().contains(text) && !left.to_set().contains(text));
            }
        } else {
            assert(left.contains(left[0]));
            assert(left.to_set().contains(left[0]));
            assert(all.contains(left[0]) && !gone.contains(left[0]));
        }
    }
    out
}

/// The texts in ascending order, each once.
pub fn sorted_texts(texts: &Vec<String>) -> (r: Vec<String>)
    ensures
        text_models(r@) == ordered(text_models(texts@).to_set()),
        ascending(text_models(r@)),
        text_models(r@).to_set() == text_models(texts@).to_set(),
{
    let none: Vec<String> = Vec::new();
    let r: Vec<String> = texts_without(texts, &none);
    assert(text_models(texts@).to_set().difference(text_models(none@).to_set())
        =~= text_models(texts@).to_set());
    r
}

} // verus!
