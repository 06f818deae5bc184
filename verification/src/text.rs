//! Text as sequences of characters: runs within sequences, joining with a
//! separator, and the two case mappings that rendering and negotiation use.

use vstd::prelude::*;

verus! {

/// The views of a sequence of strings.
pub open spec fn texts(items: Seq<String>) -> Seq<Seq<char>> {
    items.map_values(|s: String| s@)
}

/// The view of a string that may be missing.
pub open spec fn text_view(text: Option<String>) -> Option<Seq<char>> {
    match text {
        Some(t) => Some(t@),
        None => None,
    }
}

/// The view of a string slice that may be missing.
pub open spec fn slice_view(text: Option<&str>) -> Option<Seq<char>> {
    match text {
        Some(t) => Some(t@),
        None => None,
    }
}

/// The items of `part` stand in `whole` one after the other, from position
/// `at` on.
pub open spec fn occurs_at<T>(whole: Seq<T>, part: Seq<T>, at: int) -> bool {
    &&& 0 <= at
    &&& at + part.len() <= whole.len()
    &&& whole.subrange(at, at + part.len()) == part
}

/// The items of `part` stand somewhere in `whole` one after the other: for
/// texts, `part` is a substring of `whole`.
pub open spec fn has_run<T>(whole: Seq<T>, part: Seq<T>) -> bool {
    exists|at: int| occurs_at(whole, part, at)
}

/// The items of `items` in order, with `sep` between each two neighbours.
pub open spec fn joined(items: Seq<Seq<char>>, sep: Seq<char>) -> Seq<char>
    decreases items.len(),
{
    if items.len() == 0 {
        Seq::empty()
    } else if items.len() == 1 {
        items[0]
    } else {
        joined(items.drop_last(), sep) + sep + items.last()
    }
}

/// The items of `items` in order, one after the other.
pub open spec fn concat<T>(items: Seq<Seq<T>>) -> Seq<T>
    decreases items.len(),
{
    if items.len() == 0 {
        Seq::empty()
    } else {
        concat(items.drop_last()) + items.last()
    }
}

/// What `str::to_lowercase` makes of a text.
pub uninterp spec fn lowercase(text: Seq<char>) -> Seq<char>;

/// What `str::to_uppercase` makes of a text.
pub uninterp spec fn uppercase(text: Seq<char>) -> Seq<char>;

/// Calls `str::to_lowercase`, which gives the lowercase form of a text by
/// the Unicode tables of the standard library; no locale enters. The result
/// depends on the text alone and is named `lowercase`, not spelled out.
#[verifier::external_body]
pub(crate) fn to_lower(text: &str) -> (lowered: String)
    ensures
        lowered@ == lowercase(text@),
{
    text.to_lowercase()
}

/// Calls `str::to_uppercase`, which gives the uppercase form of a text by
/// the Unicode tables of the standard library; no locale enters. The result
/// depends on the text alone and is named `uppercase`, not spelled out.
#[verifier::external_body]
pub(crate) fn to_upper(text: &str) -> (raised: String)
    ensures
        raised@ == uppercase(text@),
{
    text.to_uppercase()
}

/// The characters of a string slice, in order.
pub fn chars_of(text: &str) -> (chars: Vec<char>)
    ensures
        chars@ == text@,
{
    let mut chars: Vec<char> = Vec::new();
    let it = text.chars();
    for c in iter: it
        invariant
            chars@ == iter.seq().take(iter.index()),
    {
        chars.push(c);
    }
    chars
}

/// Whether `pattern` stands in `text` at position `at`.
fn matches_at(text: &Vec<char>, pattern: &Vec<char>, at: usize) -> (found: bool)
    requires
        at + pattern.len() <= text.len(),
    ensures
        found == occurs_at(text@, pattern@, at as int),
{
    let mut j: usize = 0;
    while j < pattern.len()
        invariant
            j <= pattern.len(),
            at + pattern.len() <= text.len(),
            forall|k: int| 0 <= k < j ==> text@[at + k] == pattern@[k],
        decreases pattern.len() - j,
    {
        if text[at + j] != pattern[j] {
            assert(text@.subrange(at as int, at + pattern.len())[j as int] != pattern@[j as int]);
            return false;
        }
        j += 1;
    }
    assert(text@.subrange(at as int, at + pattern.len()) =~= pattern@);
    true
}

/// Whether `pattern` occurs somewhere in `text`, character by character.
pub fn contains(text: &str, pattern: &str) -> (found: bool)
    ensures
        found == has_run(text@, pattern@),
{
    let hay = chars_of(text);
    let needle = chars_of(pattern);
    if needle.len() > hay.len() {
        return false;
    }
    let last: usize = hay.len() - needle.len();
    let mut at: usize = 0;
    loop
        invariant
            at <= last,
            last + needle.len() == hay.len(),
            hay@ == text@,
            needle@ == pattern@,
            forall|k: int| 0 <= k < at ==> !occurs_at(hay@, needle@, k),
        decreases last - at,
    {
        if matches_at(&hay, &needle, at) {
            return true;
        }
        if at == last {
            return false;
        }
        at += 1;
    }
}

/// The strings of `items` in order, with `sep` between each two neighbours.
pub fn join(items: &Vec<String>, sep: &str) -> (out: String)
    ensures
        out@ == joined(texts(items@), sep@),
{
    let mut out = String::new();
    let mut i: usize = 0;
    while i < items.len()
        invariant
            i <= items.len(),
            out@ == joined(texts(items@).take(i as int), sep@),
        decreases items.len() - i,
    {
        proof {
            let before = texts(items@).take(i as int);
            let after = texts(items@).take(i + 1);
            assert(after.drop_last() =~= before);
            assert(after.last() == items@[i as int]@);
        }
        if i > 0 {
            out.append(sep);
        }
        out.append(items[i].as_str());
        i += 1;
    }
    assert(texts(items@).take(items.len() as int) =~= texts(items@));
    out
}

/// Joining puts every item into the result.
pub proof fn lemma_joined_has_item(items: Seq<Seq<char>>, sep: Seq<char>, i: int)
    requires
        0 <= i < items.len(),
    ensures
        has_run(joined(items, sep), items[i]),
    decreases items.len(),
{
    let whole = joined(items, sep);
    if items.len() == 1 {
        assert(whole.subrange(0, whole.len() as int) =~= whole);
        assert(occurs_at(whole, items[i], 0));
    } else {
        let head = joined(items.drop_last(), sep);
        if i == items.len() - 1 {
            let at = (head.len() + sep.len()) as int;
            assert(whole.subrange(at, at + items[i].len()) =~= items[i]);
            assert(occurs_at(whole, items[i], at));
        } else {
            lemma_joined_has_item(items.drop_last(), sep, i);
            let at = choose|at: int| occurs_at(head, items[i], at);
            assert(whole.subrange(at, at + items[i].len()) =~= head.subrange(
                at,
                at + items[i].len(),
            ));
            assert(occurs_at(whole, items[i], at));
        }
    }
}

/// Concatenating with one more item appends that item.
pub proof fn lemma_concat_push<T>(items: Seq<Seq<T>>, item: Seq<T>)
    ensures
        concat(items.push(item)) == concat(items) + item,
{
    assert(items.push(item).drop_last() =~= items);
}

/// Concatenating two sequences of items concatenates what each gives.
pub proof fn lemma_concat_append<T>(a: Seq<Seq<T>>, b: Seq<Seq<T>>)
    ensures
        concat(a + b) == concat(a) + concat(b),
    decreases b.len(),
{
    if b.len() == 0 {
        assert(a + b =~= a);
        assert(concat(a) + concat(b) =~= concat(a));
    } else {
        lemma_concat_append(a, b.drop_last());
        assert((a + b).drop_last() =~= a + b.drop_last());
        assert((a + b).last() == b.last());
        assert(concat(a + b) =~= concat(a) + concat(b));
    }
}

/// A sequence occurs in itself with anything before and after it.
pub proof fn lemma_occurs_between<T>(before: Seq<T>, part: Seq<T>, after: Seq<T>)
    ensures
        has_run(before + part + after, part),
{
    let whole = before + part + after;
    let at = before.len() as int;
    assert(whole.subrange(at, at + part.len()) =~= part);
    assert(occurs_at(whole, part, at));
}

/// What occurs in a part of a sequence occurs in the sequence.
pub proof fn lemma_occurs_within<T>(whole: Seq<T>, part: Seq<T>, piece: Seq<T>)
    requires
        has_run(whole, part),
        has_run(part, piece),
    ensures
        has_run(whole, piece),
{
    let outer = choose|at: int| occurs_at(whole, part, at);
    let inner = choose|at: int| occurs_at(part, piece, at);
    let at = outer + inner;
    let found = whole.subrange(at, at + piece.len());
    let wanted = part.subrange(inner, inner + piece.len());
    assert forall|k: int| 0 <= k < piece.len() implies #[trigger] found[k] == wanted[k] by {
        assert(whole.subrange(outer, outer + part.len())[inner + k] == whole[outer + inner + k]);
    }
    assert(found =~= wanted);
    assert(occurs_at(whole, piece, at));
}

/// Concatenation puts every item into the result.
pub proof fn lemma_concat_has_item<T>(items: Seq<Seq<T>>, i: int)
    requires
        0 <= i < items.len(),
    ensures
        has_run(concat(items), items[i]),
{
    let before = items.subrange(0, i);
    let after = items.subrange(i + 1, items.len() as int);
    let one = seq![items[i]];
    assert(items =~= before + one + after);
    lemma_concat_append(before, one);
    lemma_concat_append(before + one, after);
    assert(concat(one) =~= items[i]) by {
        assert(one.drop_last() =~= Seq::<Seq<T>>::empty());
        assert(concat(one.drop_last()) =~= Seq::<T>::empty());
    }
    lemma_occurs_between(concat(before), items[i], concat(after));
}

/// Where items occur one after the other among others, their concatenation
/// occurs in the concatenation of all.
pub proof fn lemma_concat_has_part<T>(items: Seq<Seq<T>>, part: Seq<Seq<T>>)
    requires
        has_run(items, part),
    ensures
        has_run(concat(items), concat(part)),
{
    let at = choose|at: int| occurs_at(items, part, at);
    let before = items.subrange(0, at);
    let after = items.subrange(at + part.len(), items.len() as int);
    assert(items =~= before + part + after);
    lemma_concat_append(before, part);
    lemma_concat_append(before + part, after);
    lemma_occurs_between(concat(before), concat(part), concat(after));
}

} // verus!
