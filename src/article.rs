use vstd::prelude::*;

use crate::parse::{
    is_construct, paths, render_line, render_spec, HtmlToken, ParseError, TokenVariant,
};
use crate::text::{chars_of, find_from, first_from, lemma_first_from_bounds, string_of};

verus! {

broadcast use vstd::string::group_string_axioms;

/// A rendered piece of HTML with the construct it stands for.
pub type Fragment = (Seq<char>, TokenVariant);

/// A line without the carriage return that ended it, if any.
pub open spec fn strip_cr(l: Seq<char>) -> Seq<char> {
    if l.len() > 0 && l.last() == '\r' {
        l.drop_last()
    } else {
        l
    }
}

/// The lines of `s` from position `i` on: split at each `\n`, a `\r` before the `\n`
/// dropped, and no empty line after a final `\n`.
pub open spec fn lines_from(s: Seq<char>, i: int) -> Seq<Seq<char>>
    decreases s.len() - i,
    when 0 <= i
    via lines_from_decreases
{
    if i >= s.len() {
        Seq::empty()
    } else {
        let e = first_from(s, '\n', i);
        if e >= s.len() {
            seq![s.subrange(i, s.len() as int)]
        } else {
            seq![strip_cr(s.subrange(i, e))] + lines_from(s, e + 1)
        }
    }
}

#[via_fn]
proof fn lines_from_decreases(s: Seq<char>, i: int) {
    if 0 <= i < s.len() {
        lemma_first_from_bounds(s, '\n', i);
    }
}

/// The lines of a whole text.
pub open spec fn lines_of(s: Seq<char>) -> Seq<Seq<char>> {
    lines_from(s, 0)
}

/// The views of a sequence of tokens.
pub open spec fn fragments(tokens: Seq<HtmlToken>) -> Seq<Fragment> {
    tokens.map_values(|t: HtmlToken| t@)
}

/// Every line of `lines` renders without error.
pub open spec fn all_render(images: Seq<Seq<char>>, lines: Seq<Seq<char>>) -> bool {
    forall|i: int| 0 <= i < lines.len() ==> (#[trigger] render_spec(images, lines[i])) is Some
}

/// The fragments of `lines`, one per line, in order.
pub open spec fn rendered(images: Seq<Seq<char>>, lines: Seq<Seq<char>>) -> Seq<Fragment> {
    lines.map_values(|l: Seq<char>| render_spec(images, l)->Some_0)
}

/// Position of the first fragment of kind `k` among the first `n`, if any.
pub open spec fn first_in(s: Seq<Fragment>, k: TokenVariant, n: int) -> Option<int>
    decreases n,
{
    if n <= 0 {
        None
    } else {
        match first_in(s, k, n - 1) {
            Some(f) => Some(f),
            None => if s[n - 1].1 == k {
                Some(n - 1)
            } else {
                None
            },
        }
    }
}

/// Position of the last fragment of kind `k` among the first `n`, if any.
pub open spec fn last_in(s: Seq<Fragment>, k: TokenVariant, n: int) -> Option<int>
    decreases n,
{
    if n <= 0 {
        None
    } else if s[n - 1].1 == k {
        Some(n - 1)
    } else {
        last_in(s, k, n - 1)
    }
}

pub open spec fn first_of(s: Seq<Fragment>, k: TokenVariant) -> Option<int> {
    first_in(s, k, s.len() as int)
}

pub open spec fn last_of(s: Seq<Fragment>, k: TokenVariant) -> Option<int> {
    last_in(s, k, s.len() as int)
}

pub open spec fn ordered_open() -> Fragment {
    ("<ol type=\"1\">"@, TokenVariant::OrderedListDecorator)
}

pub open spec fn ordered_close() -> Fragment {
    ("</ol>"@, TokenVariant::OrderedListDecorator)
}

pub open spec fn unordered_open() -> Fragment {
    ("<ul>"@, TokenVariant::UnorderedListDecorator)
}

pub open spec fn unordered_close() -> Fragment {
    ("</ul>"@, TokenVariant::UnorderedListDecorator)
}

/// `w` where `at` holds, nothing otherwise.
pub open spec fn when(at: bool, w: Fragment) -> Seq<Fragment> {
    if at {
        seq![w]
    } else {
        Seq::empty()
    }
}

/// Fragment `i` of `s`, with an opening wrapper before it where it is the first item of
/// its list kind, and a closing wrapper after it where it is the last.
pub open spec fn wrapped_at(s: Seq<Fragment>, i: int) -> Seq<Fragment> {
    when(first_of(s, TokenVariant::OrderedList) == Some(i), ordered_open()) + when(
        first_of(s, TokenVariant::UnorderedList) == Some(i),
        unordered_open(),
    ) + seq![s[i]] + when(last_of(s, TokenVariant::UnorderedList) == Some(i), unordered_close())
        + when(last_of(s, TokenVariant::OrderedList) == Some(i), ordered_close())
}

/// The first `n` fragments of `s`, each with its wrappers.
pub open spec fn hydrated_upto(s: Seq<Fragment>, n: int) -> Seq<Fragment>
    decreases n,
{
    if n <= 0 {
        Seq::empty()
    } else {
        hydrated_upto(s, n - 1) + wrapped_at(s, n - 1)
    }
}

/// `s` with one list wrapper pair per list kind, from the first item of that kind to the last.
pub open spec fn hydrated(s: Seq<Fragment>) -> Seq<Fragment> {
    hydrated_upto(s, s.len() as int)
}

/// The HTML of each fragment followed by a line break, all concatenated.
pub open spec fn joined(s: Seq<Fragment>) -> Seq<char>
    decreases s.len(),
{
    if s.len() == 0 {
        Seq::empty()
    } else {
        joined(s.drop_last()) + s.last().0 + "\n"@
    }
}

/// A source document: its markup text and the paths of the images found beside it.
pub struct Article {
    pub source_contents: String,
    pub images: Vec<String>,
}

/// Splits `text` into its lines.
pub fn split_lines(text: &str) -> (r: Vec<String>)
    ensures
        r@.map_values(|l: String| l@) == lines_of(text@),
{
    let v = chars_of(text);
    let n = v.len();
    let mut out: Vec<String> = Vec::new();
    let mut start: usize = 0;
    while start < n
        invariant
            n == v.len(),
            v@ == text@,
            start <= n,
            out@.map_values(|l: String| l@) + lines_from(v@, start as int) == lines_of(v@),
        decreases n - start,
    {
        proof {
            lemma_first_from_bounds(v@, '\n', start as int);
        }
        let e = find_from(&v, '\n', start);
        let ghost before = out@.map_values(|l: String| l@);
        if e >= n {
            let line = string_of(&v, start, n);
            out.push(line);
            assert(out@.map_values(|l: String| l@) =~= before.push(line@));
            assert(lines_from(v@, n as int) =~= Seq::<Seq<char>>::empty());
            start = n;
        } else {
            let end = if e > start && v[e - 1] == '\r' {
                e - 1
            } else {
                e
            };
            let line = string_of(&v, start, end);
            assert(line@ =~= strip_cr(v@.subrange(start as int, e as int)));
            out.push(line);
            assert(out@.map_values(|l: String| l@) =~= before.push(line@));
            assert(lines_from(v@, start as int) =~= seq![line@] + lines_from(v@, e + 1));
            start = e + 1;
        }
    }
    assert(lines_from(v@, start as int) =~= Seq::<Seq<char>>::empty());
    assert(out@.map_values(|l: String| l@) =~= out@.map_values(|l: String| l@) + lines_from(v@, start as int));
    out
}

impl Article {
    pub fn new(source_contents: String, images: Vec<String>) -> (r: Self)
        ensures
            r.source_contents@ == source_contents@,
            r.images@ == images@,
    {
        Self { source_contents, images }
    }

    /// Renders every line of the document, in order; fails on the first malformed line.
    pub fn to_html_tokens(&self) -> (r: Result<Vec<HtmlToken>, ParseError>)
        ensures
            r is Ok <==> all_render(paths(self.images@), lines_of(self.source_contents@)),
            r is Ok ==> fragments(r->Ok_0@) == rendered(
                paths(self.images@),
                lines_of(self.source_contents@),
            ),
    {
        let lines = split_lines(self.source_contents.as_str());
        let ghost ls = lines_of(self.source_contents@);
        let ghost imgs = paths(self.images@);
        assert(ls.len() == lines@.len());
        let mut tags: Vec<HtmlToken> = Vec::new();
        let mut i: usize = 0;
        while i < lines.len()
            invariant
                i <= lines.len() == ls.len(),
                imgs == paths(self.images@),
                ls == lines_of(self.source_contents@),
                forall|j: int| 0 <= j < lines.len() ==> #[trigger] lines@[j]@ == ls[j],
                forall|j: int| 0 <= j < i ==> (#[trigger] render_spec(imgs, ls[j])) is Some,
                fragments(tags@) == rendered(imgs, ls.take(i as int)),
            decreases lines.len() - i,
        {
            assert(lines@.map_values(|l: String| l@)[i as int] == ls[i as int]);
            let tag = match render_line(&self.images, lines[i].as_str()) {
                Ok(tag) => tag,
                Err(e) => {
                    return Err(e);
                },
            };
            let ghost before = fragments(tags@);
            assert(tag@ == render_spec(imgs, ls[i as int])->Some_0);
            tags.push(tag);
            assert(fragments(tags@) =~= before.push(tag@));
            assert(rendered(imgs, ls.take(i + 1)) =~= rendered(imgs, ls.take(i as int)).push(tag@));
            i = i + 1;
        }
        assert(ls.take(i as int) =~= ls);
        Ok(tags)
    }
}

/// Wraps the list items of `tags`: for each list kind present, an opening wrapper goes
/// right before its first item and a closing wrapper right after its last item.
pub fn hydrate_tags(tags: &mut Vec<HtmlToken>)
    ensures
        fragments(final(tags)@) == hydrated(fragments(old(tags)@)),
{
    let ghost s = fragments(tags@);
    let n = tags.len();
    let mut first_ordered: Option<usize> = None;
    let mut last_ordered: Option<usize> = None;
    let mut first_unordered: Option<usize> = None;
    let mut last_unordered: Option<usize> = None;
    let mut i: usize = 0;
    while i < n
        invariant
            n == tags.len() == s.len(),
            s == fragments(tags@),
            i <= n,
            opt(first_ordered) == first_in(s, TokenVariant::OrderedList, i as int),
            opt(last_ordered) == last_in(s, TokenVariant::OrderedList, i as int),
            opt(first_unordered) == first_in(s, TokenVariant::UnorderedList, i as int),
            opt(last_unordered) == last_in(s, TokenVariant::UnorderedList, i as int),
        decreases n - i,
    {
        assert(s[i as int].1 == tags@[i as int].variant);
        match tags[i].variant {
            TokenVariant::OrderedList => {
                if first_ordered.is_none() {
                    first_ordered = Some(i);
                }
                last_ordered = Some(i);
            },
            TokenVariant::UnorderedList => {
                if first_unordered.is_none() {
                    first_unordered = Some(i);
                }
                last_unordered = Some(i);
            },
            _ => {},
        }
        i = i + 1;
    }
    let mut out: Vec<HtmlToken> = Vec::new();
    let mut i: usize = 0;
    while i < n
        invariant
            n == tags.len() == s.len(),
            s == fragments(tags@),
            i <= n,
            opt(first_ordered) == first_of(s, TokenVariant::OrderedList),
            opt(last_ordered) == last_of(s, TokenVariant::OrderedList),
            opt(first_unordered) == first_of(s, TokenVariant::UnorderedList),
            opt(last_unordered) == last_of(s, TokenVariant::UnorderedList),
            fragments(out@) == hydrated_upto(s, i as int),
        decreases n - i,
    {
        let ghost before = fragments(out@);
        if first_ordered == Some(i) {
            out.push(HtmlToken {
                token: String::from_str("<ol type=\"1\">"),
                variant: TokenVariant::OrderedListDecorator,
            });
        }
        let ghost a = fragments(out@);
        assert(a =~= before + when(first_of(s, TokenVariant::OrderedList) == Some(i as int), ordered_open()));
        if first_unordered == Some(i) {
            out.push(HtmlToken {
                token: String::from_str("<ul>"),
                variant: TokenVariant::UnorderedListDecorator,
            });
        }
        let ghost b = fragments(out@);
        assert(b =~= a + when(first_of(s, TokenVariant::UnorderedList) == Some(i as int), unordered_open()));
        out.push(HtmlToken { token: tags[i].token.clone(), variant: tags[i].variant });
        let ghost c = fragments(out@);
        assert(c =~= b + seq![s[i as int]]);
        if last_unordered == Some(i) {
            out.push(HtmlToken {
                token: String::from_str("</ul>"),
                variant: TokenVariant::UnorderedListDecorator,
            });
        }
        let ghost d = fragments(out@);
        assert(d =~= c + when(last_of(s, TokenVariant::UnorderedList) == Some(i as int), unordered_close()));
        if last_ordered == Some(i) {
            out.push(HtmlToken {
                token: String::from_str("</ol>"),
                variant: TokenVariant::OrderedListDecorator,
            });
        }
        assert(fragments(out@) =~= d + when(last_of(s, TokenVariant::OrderedList) == Some(i as int), ordered_close()));
        assert(fragments(out@) =~= hydrated_upto(s, i + 1));
        i = i + 1;
    }
    *tags = out;
}

/// Neither list kind has an item among the fragments.
pub open spec fn no_list_items(s: Seq<Fragment>) -> bool {
    forall|i: int|
        0 <= i < s.len() ==> (#[trigger] s[i]).1 != TokenVariant::OrderedList && s[i].1
            != TokenVariant::UnorderedList
}

proof fn lemma_no_item_found(s: Seq<Fragment>, k: TokenVariant, n: int)
    requires
        0 <= n <= s.len(),
        forall|i: int| 0 <= i < s.len() ==> (#[trigger] s[i]).1 != k,
    ensures
        first_in(s, k, n) is None,
        last_in(s, k, n) is None,
    decreases n,
{
    if n > 0 {
        lemma_no_item_found(s, k, n - 1);
    }
}

/// Hydrating a sequence that holds no list item leaves it as it is; so hydrating it
/// twice gives what hydrating it once gives.
pub proof fn lemma_hydrate_idempotent(s: Seq<Fragment>)
    requires
        no_list_items(s),
    ensures
        hydrated(s) == s,
        hydrated(hydrated(s)) == hydrated(s),
{
    lemma_no_item_found(s, TokenVariant::OrderedList, s.len() as int);
    lemma_no_item_found(s, TokenVariant::UnorderedList, s.len() as int);
    lemma_hydrated_upto_unchanged(s, s.len() as int);
    assert(s.take(s.len() as int) =~= s);
}

proof fn lemma_hydrated_upto_unchanged(s: Seq<Fragment>, n: int)
    requires
        0 <= n <= s.len(),
        first_of(s, TokenVariant::OrderedList) is None,
        last_of(s, TokenVariant::OrderedList) is None,
        first_of(s, TokenVariant::UnorderedList) is None,
        last_of(s, TokenVariant::UnorderedList) is None,
    ensures
        hydrated_upto(s, n) == s.take(n),
    decreases n,
{
    if n > 0 {
        lemma_hydrated_upto_unchanged(s, n - 1);
        assert(wrapped_at(s, n - 1) =~= seq![s[n - 1]]);
        assert(s.take(n) =~= s.take(n - 1) + seq![s[n - 1]]);
    }
}

/// The fragments that stand for a line of the source, wrappers taken out.
pub open spec fn constructs(s: Seq<Fragment>) -> Seq<Fragment> {
    s.filter(|f: Fragment| is_construct(f.1))
}

proof fn lemma_constructs_of_when(b: bool, w: Fragment)
    requires
        !is_construct(w.1),
    ensures
        constructs(when(b, w)) == Seq::<Fragment>::empty(),
{
    reveal_with_fuel(Seq::filter, 2);
    if b {
        assert(when(b, w).drop_last() =~= Seq::<Fragment>::empty());
    }
}

proof fn lemma_constructs_of_one(x: Fragment)
    requires
        is_construct(x.1),
    ensures
        constructs(seq![x]) == seq![x],
{
    reveal_with_fuel(Seq::filter, 2);
    assert(seq![x].drop_last() =~= Seq::<Fragment>::empty());
    assert(Seq::<Fragment>::empty().push(x) =~= seq![x]);
}

proof fn lemma_constructs_upto(s: Seq<Fragment>, n: int)
    requires
        0 <= n <= s.len(),
        forall|i: int| 0 <= i < s.len() ==> is_construct((#[trigger] s[i]).1),
    ensures
        constructs(hydrated_upto(s, n)) == s.take(n),
    decreases n,
{
    let pred = |f: Fragment| is_construct(f.1);
    if n == 0 {
        reveal_with_fuel(Seq::filter, 1);
        assert(s.take(0) =~= Seq::<Fragment>::empty());
    } else {
        let i = n - 1;
        lemma_constructs_upto(s, i);
        let w1 = when(first_of(s, TokenVariant::OrderedList) == Some(i), ordered_open());
        let w2 = when(first_of(s, TokenVariant::UnorderedList) == Some(i), unordered_open());
        let w3 = when(last_of(s, TokenVariant::UnorderedList) == Some(i), unordered_close());
        let w4 = when(last_of(s, TokenVariant::OrderedList) == Some(i), ordered_close());
        lemma_constructs_of_when(first_of(s, TokenVariant::OrderedList) == Some(i), ordered_open());
        lemma_constructs_of_when(first_of(s, TokenVariant::UnorderedList) == Some(i), unordered_open());
        lemma_constructs_of_when(last_of(s, TokenVariant::UnorderedList) == Some(i), unordered_close());
        lemma_constructs_of_when(last_of(s, TokenVariant::OrderedList) == Some(i), ordered_close());
        lemma_constructs_of_one(s[i]);
        Seq::filter_distributes_over_add(w1, w2, pred);
        Seq::filter_distributes_over_add(w1 + w2, seq![s[i]], pred);
        Seq::filter_distributes_over_add(w1 + w2 + seq![s[i]], w3, pred);
        Seq::filter_distributes_over_add(w1 + w2 + seq![s[i]] + w3, w4, pred);
        Seq::filter_distributes_over_add(hydrated_upto(s, i), wrapped_at(s, i), pred);
        assert(constructs(wrapped_at(s, i)) =~= seq![s[i]]);
        assert(s.take(n) =~= s.take(i) + seq![s[i]]);
    }
}

/// Hydration only adds list wrappers: taking them out again gives back the input
/// fragments, all of them and in their order.
pub proof fn lemma_hydrate_keeps_order(s: Seq<Fragment>)
    requires
        forall|i: int| 0 <= i < s.len() ==> is_construct((#[trigger] s[i]).1),
    ensures
        constructs(hydrated(s)) == s,
{
    lemma_constructs_upto(s, s.len() as int);
    assert(s.take(s.len() as int) =~= s);
}

proof fn lemma_first_in(s: Seq<Fragment>, k: TokenVariant, n: int)
    requires
        0 <= n <= s.len(),
    ensures
        first_in(s, k, n) is None <==> last_in(s, k, n) is None,
        first_in(s, k, n) matches Some(f) ==> 0 <= f < n && s[f].1 == k && (forall|j: int|
            0 <= j < f ==> (#[trigger] s[j]).1 != k),
        last_in(s, k, n) matches Some(l) ==> 0 <= l < n && s[l].1 == k && (forall|j: int|
            l < j < n ==> (#[trigger] s[j]).1 != k),
        first_in(s, k, n) is None ==> forall|j: int| 0 <= j < n ==> (#[trigger] s[j]).1 != k,
    decreases n,
{
    if n > 0 {
        lemma_first_in(s, k, n - 1);
    }
}

/// The wrapper fragments of a list kind.
pub open spec fn opener(k: TokenVariant) -> Fragment {
    if k == TokenVariant::OrderedList {
        ordered_open()
    } else {
        unordered_open()
    }
}

pub open spec fn closer(k: TokenVariant) -> Fragment {
    if k == TokenVariant::OrderedList {
        ordered_close()
    } else {
        unordered_close()
    }
}

pub open spec fn other_kind(k: TokenVariant) -> TokenVariant {
    if k == TokenVariant::OrderedList {
        TokenVariant::UnorderedList
    } else {
        TokenVariant::OrderedList
    }
}

proof fn lemma_insert_upto(s: Seq<Fragment>, k: TokenVariant, f: int, l: int, n: int)
    requires
        k == TokenVariant::OrderedList || k == TokenVariant::UnorderedList,
        0 <= n <= s.len(),
        0 <= f <= l < s.len(),
        first_of(s, k) == Some(f),
        last_of(s, k) == Some(l),
        first_of(s, other_kind(k)) is None,
        last_of(s, other_kind(k)) is None,
    ensures
        n <= f ==> hydrated_upto(s, n) == s.take(n),
        f < n <= l ==> hydrated_upto(s, n) == s.take(f) + seq![opener(k)] + s.subrange(f, n),
        l < n ==> hydrated_upto(s, n) == s.take(f) + seq![opener(k)] + s.subrange(f, l + 1)
            + seq![closer(k)] + s.subrange(l + 1, n),
    decreases n,
{
    if n > 0 {
        let i = n - 1;
        lemma_insert_upto(s, k, f, l, i);
        let w = wrapped_at(s, i);
        if i == f && i == l {
            assert(w =~= seq![opener(k), s[i], closer(k)]);
        } else if i == f {
            assert(w =~= seq![opener(k), s[i]]);
        } else if i == l {
            assert(w =~= seq![s[i], closer(k)]);
        } else {
            assert(w =~= seq![s[i]]);
        }
        if n <= f {
            assert(s.take(n) =~= s.take(i) + seq![s[i]]);
        } else if n <= l {
            if i == f {
                assert(s.take(i) + seq![opener(k), s[i]] =~= s.take(f) + seq![opener(k)]
                    + s.subrange(f, n));
            } else {
                assert(s.take(f) + seq![opener(k)] + s.subrange(f, i) + seq![s[i]] =~= s.take(f)
                    + seq![opener(k)] + s.subrange(f, n));
            }
        } else if i == l {
            if i == f {
                assert(s.take(i) + seq![opener(k), s[i], closer(k)] =~= s.take(f) + seq![
                    opener(k),
                ] + s.subrange(f, l + 1) + seq![closer(k)] + s.subrange(l + 1, n));
            } else {
                assert(s.take(f) + seq![opener(k)] + s.subrange(f, i) + seq![s[i], closer(k)]
                    =~= s.take(f) + seq![opener(k)] + s.subrange(f, l + 1) + seq![closer(k)]
                    + s.subrange(l + 1, n));
            }
        } else {
            assert(s.take(f) + seq![opener(k)] + s.subrange(f, l + 1) + seq![closer(k)]
                + s.subrange(l + 1, i) + seq![s[i]] =~= s.take(f) + seq![opener(k)] + s.subrange(
                f,
                l + 1,
            ) + seq![closer(k)] + s.subrange(l + 1, n));
        }
    }
}

/// Where the items of one list kind are the only list items, hydration inserts that
/// kind's opening wrapper right before its first item and its closing wrapper right after
/// its last item: at `last + 2` once the opening wrapper stands.
pub proof fn lemma_hydrate_inserts(s: Seq<Fragment>, k: TokenVariant, f: int, l: int)
    requires
        k == TokenVariant::OrderedList || k == TokenVariant::UnorderedList,
        first_of(s, k) == Some(f),
        last_of(s, k) == Some(l),
        forall|i: int| 0 <= i < s.len() ==> (#[trigger] s[i]).1 != other_kind(k),
    ensures
        hydrated(s) == s.insert(f, opener(k)).insert(l + 2, closer(k)),
{
    lemma_first_in(s, k, s.len() as int);
    lemma_no_item_found(s, other_kind(k), s.len() as int);
    lemma_insert_upto(s, k, f, l, s.len() as int);
    assert(s.insert(f, opener(k)).insert(l + 2, closer(k)) =~= s.take(f) + seq![opener(k)]
        + s.subrange(f, l + 1) + seq![closer(k)] + s.subrange(l + 1, s.len() as int));
}

/// A position held in a `usize`, as an integer.
spec fn opt(p: Option<usize>) -> Option<int> {
    match p {
        Some(v) => Some(v as int),
        None => None,
    }
}

/// The HTML body of a document: its rendered lines, list items wrapped, one per line.
pub fn generate_body(article: Article) -> (r: Result<String, ParseError>)
    ensures
        r is Ok <==> all_render(paths(article.images@), lines_of(article.source_contents@)),
        r is Ok ==> r->Ok_0@ == joined(
            hydrated(rendered(paths(article.images@), lines_of(article.source_contents@))),
        ),
{
    let mut tags = match article.to_html_tokens() {
        Ok(tags) => tags,
        Err(e) => {
            return Err(e);
        },
    };
    hydrate_tags(&mut tags);
    let ghost s = fragments(tags@);
    let mut body = String::new();
    let mut i: usize = 0;
    while i < tags.len()
        invariant
            i <= tags.len(),
            s == fragments(tags@),
            body@ == joined(s.take(i as int)),
        decreases tags.len() - i,
    {
        body.append(tags[i].token.as_str());
        body.append("\n");
        assert(s.take(i + 1).drop_last() =~= s.take(i as int));
        assert(body@ =~= joined(s.take(i + 1)));
        i = i + 1;
    }
    assert(s.take(i as int) =~= s);
    Ok(body)
}

} // verus!
