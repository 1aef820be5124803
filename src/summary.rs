//! The summary line grammar and the summary record it builds.
use vstd::prelude::*;
use crate::tags::{cleaned_of, lemma_scan_plain, marker_at, parse_tags, tags_of};
use crate::text::{chars_of, views};

verus! {

/// The classes of characters that the grammar reads in runs.
pub enum CharClass {
    /// ASCII letters.
    Alpha,
    /// ASCII digits.
    Digit,
    /// Spaces and tabs.
    Blank,
    /// Anything but a line feed.
    InLine,
}

pub open spec fn in_class(c: char, k: CharClass) -> bool {
    let u = c as u32;
    match k {
        CharClass::Alpha => (0x41 <= u && u <= 0x5a) || (0x61 <= u && u <= 0x7a),
        CharClass::Digit => 0x30 <= u && u <= 0x39,
        CharClass::Blank => c == ' ' || c == '\t',
        CharClass::InLine => c != '\n',
    }
}

/// The end of the longest run of characters of class `k` from index `i` of `s`.
pub open spec fn run_end(s: Seq<char>, i: int, k: CharClass) -> int
    decreases s.len() - i,
{
    if 0 <= i < s.len() && in_class(s[i], k) {
        run_end(s, i + 1, k)
    } else {
        i
    }
}

/// The end of the optional ticket prefix, letters, a hyphen and digits; 0 where
/// the line has none.
pub open spec fn prefix_end(s: Seq<char>) -> int {
    let a = run_end(s, 0, CharClass::Alpha);
    let d = run_end(s, a + 1, CharClass::Digit);
    if 0 < a < s.len() && s[a] == '-' && d > a + 1 {
        d
    } else {
        0
    }
}

/// Where the category keyword must stand: after the prefix, a run of blanks,
/// and an opening bracket, each optional.
pub open spec fn category_start(s: Seq<char>) -> int {
    let b = run_end(s, prefix_end(s), CharClass::Blank);
    if b < s.len() && s[b] == '[' {
        b + 1
    } else {
        b
    }
}

/// The category keywords, in the order in which they are tried.
pub open spec fn keywords() -> Seq<Seq<char>> {
    seq![
        seq!['A', 'd', 'd', 'e', 'd'],
        seq!['C', 'h', 'a', 'n', 'g', 'e', 'd'],
        seq!['F', 'i', 'x', 'e', 'd'],
        seq!['I', 'm', 'p', 'r', 'o', 'v', 'e', 'd'],
        seq!['R', 'e', 'm', 'o', 'v', 'e', 'd'],
    ]
}

/// `c` is one of the category keywords.
pub open spec fn is_category(c: Seq<char>) -> bool {
    exists|k: int| 0 <= k < 5 && keywords()[k] == c
}

/// Keyword `k` stands at index `i` of `s`.
pub open spec fn keyword_at(s: Seq<char>, i: int, k: int) -> bool {
    let w = keywords()[k];
    0 <= i && i + w.len() <= s.len() && s.subrange(i, i + w.len()) == w
}

/// The first keyword from `k` on that stands at index `i` of `s`, or the
/// number of keywords where none does.
pub open spec fn first_keyword(s: Seq<char>, i: int, k: int) -> int
    decreases 5 - k,
{
    if k >= 5 {
        5
    } else if keyword_at(s, i, k) {
        k
    } else {
        first_keyword(s, i, k + 1)
    }
}

proof fn lemma_first_keyword(s: Seq<char>, i: int, k: int)
    requires
        0 <= k <= 5,
    ensures
        k <= first_keyword(s, i, k) <= 5,
        first_keyword(s, i, k) < 5 ==> keyword_at(s, i, first_keyword(s, i, k)),
    decreases 5 - k,
{
    if k < 5 && !keyword_at(s, i, k) {
        lemma_first_keyword(s, i, k + 1);
    }
}

/// The fields of a summary record.
pub struct SummaryView {
    pub prefix: Seq<char>,
    pub category: Seq<char>,
    pub text: Seq<char>,
    pub tags: Seq<Seq<char>>,
}

/// What a summary line parses to: `None` where no category keyword stands
/// where it must.
pub open spec fn summary_of(s: Seq<char>) -> Option<SummaryView> {
    let c = category_start(s);
    let k = first_keyword(s, c, 0);
    if k >= 5 {
        None
    } else {
        let e = c + keywords()[k].len();
        let r = if e < s.len() && s[e] == ']' {
            e + 1
        } else {
            e
        };
        Some(
            SummaryView {
                prefix: s.take(prefix_end(s)),
                category: keywords()[k],
                text: cleaned_of(s.skip(r)),
                tags: tags_of(s.skip(r)),
            },
        )
    }
}

/// The summary line of a commit message, parsed.
pub struct SummaryElement {
    prefix: String,
    category: String,
    text: String,
    tags: Vec<String>,
}

impl View for SummaryElement {
    type V = SummaryView;

    closed spec fn view(&self) -> SummaryView {
        SummaryView {
            prefix: self.prefix@,
            category: self.category@,
            text: self.text@,
            tags: views(self.tags@),
        }
    }
}

fn class_has(k: &CharClass, c: char) -> (r: bool)
    ensures
        r == in_class(c, *k),
{
    let u = c as u32;
    match k {
        CharClass::Alpha => (0x41 <= u && u <= 0x5a) || (0x61 <= u && u <= 0x7a),
        CharClass::Digit => 0x30 <= u && u <= 0x39,
        CharClass::Blank => c == ' ' || c == '\t',
        CharClass::InLine => c != '\n',
    }
}

/// The end of the longest run of characters of class `k` from `i`.
pub fn scan_run(chars: &Vec<char>, i: usize, k: CharClass) -> (r: usize)
    requires
        i <= chars@.len(),
    ensures
        r == run_end(chars@, i as int, k),
        i <= r <= chars@.len(),
{
    let mut j = i;
    while j < chars.len() && class_has(&k, chars[j])
        invariant
            i <= j <= chars@.len(),
            run_end(chars@, i as int, k) == run_end(chars@, j as int, k),
        decreases chars@.len() - j,
    {
        j = j + 1;
    }
    j
}

fn keyword(k: usize) -> (r: &'static str)
    requires
        k < 5,
    ensures
        r@ == keywords()[k as int],
{
    proof {
        reveal_strlit("Added");
        reveal_strlit("Changed");
        reveal_strlit("Fixed");
        reveal_strlit("Improved");
        reveal_strlit("Removed");
    }
    let r = if k == 0 {
        "Added"
    } else if k == 1 {
        "Changed"
    } else if k == 2 {
        "Fixed"
    } else if k == 3 {
        "Improved"
    } else {
        "Removed"
    };
    assert(r@ =~= keywords()[k as int]);
    r
}

/// Whether `word` stands at index `i` of `chars`.
fn stands_at(chars: &Vec<char>, i: usize, word: &str) -> (r: bool)
    requires
        i <= chars@.len(),
    ensures
        r == (i + word@.len() <= chars@.len() && chars@.subrange(
            i as int,
            i + word@.len(),
        ) == word@),
{
    let w = chars_of(word);
    let len = chars.len();
    if w.len() > len - i {
        return false;
    }
    let mut j: usize = 0;
    while j < w.len()
        invariant
            len == chars@.len(),
            w@ == word@,
            i + w@.len() <= chars@.len(),
            j <= w@.len(),
            forall|m: int| 0 <= m < j ==> chars@[i + m] == w@[m],
        decreases w@.len() - j,
    {
        if chars[i + j] != w[j] {
            assert(chars@.subrange(i as int, i + w@.len())[j as int] != w@[j as int]);
            return false;
        }
        j = j + 1;
    }
    assert(chars@.subrange(i as int, i + w@.len()) =~= w@);
    true
}

/// Parses a summary line: an optional prefix, optional blanks, an optional
/// `[`, a category keyword, an optional `]`, then text with tag markers.
pub fn parse_summary(line: &str) -> (r: Option<SummaryElement>)
    ensures
        match r {
            None => summary_of(line@) is None,
            Some(e) => summary_of(line@) == Some(e@) && is_category(e@.category),
        },
{
    let chars = chars_of(line);
    let n = chars.len();
    let a = scan_run(&chars, 0, CharClass::Alpha);
    let mut p: usize = 0;
    if 0 < a && a < n && chars[a] == '-' {
        let d = scan_run(&chars, a + 1, CharClass::Digit);
        if d > a + 1 {
            p = d;
        }
    }
    assert(p == prefix_end(chars@));
    let b = scan_run(&chars, p, CharClass::Blank);
    let c = if b < n && chars[b] == '[' {
        b + 1
    } else {
        b
    };
    let mut k: usize = 0;
    while k < 5
        invariant
            c == category_start(chars@),
            c <= n == chars@.len(),
            k <= 5,
            first_keyword(chars@, c as int, 0) == first_keyword(chars@, c as int, k as int),
        ensures
            k <= 5,
            first_keyword(chars@, c as int, 0) == k,
        decreases 5 - k,
    {
        if stands_at(&chars, c, keyword(k)) {
            break ;
        }
        k = k + 1;
    }
    if k >= 5 {
        return None;
    }
    let w = keyword(k);
    proof {
        lemma_first_keyword(chars@, c as int, 0);
    }
    let e = c + w.unicode_len();
    let r = if e < n && chars[e] == ']' {
        e + 1
    } else {
        e
    };
    let (tags, text) = parse_tags(line.substring_char(r, n));
    proof {
        assert(line@.skip(r as int) =~= line@.subrange(r as int, n as int));
    }
    Some(
        SummaryElement {
            prefix: line.substring_char(0, p).to_owned(),
            category: w.to_owned(),
            text,
            tags,
        },
    )
}

/// What `{:?}` prints for a string: the string quoted, with characters escaped.
pub uninterp spec fn debug_str(s: Seq<char>) -> Seq<char>;

/// The tags as `{:?}` prints a list of strings, without the brackets: each
/// tag quoted and escaped, separated by `, `.
pub open spec fn join_debug(tags: Seq<Seq<char>>) -> Seq<char>
    decreases tags.len(),
{
    if tags.len() == 0 {
        Seq::empty()
    } else if tags.len() == 1 {
        debug_str(tags[0])
    } else {
        join_debug(tags.drop_last()) + ", "@ + debug_str(tags.last())
    }
}

/// The changelog line of a summary record:
/// `- [<category>]<text> (Prefix: '<prefix>', Tags: [<tags>])`.
pub open spec fn render_of(v: SummaryView) -> Seq<char> {
    "- ["@ + v.category + "]"@ + v.text + " (Prefix: '"@ + v.prefix + "', Tags: ["@ + join_debug(
        v.tags,
    ) + "])"@
}

/// The rendered line holds the category, text, prefix and tags of the record
/// at fixed places that their lengths give, so the line reproduces each of
/// them as it was.
pub proof fn lemma_render_fields(v: SummaryView)
    ensures
        ({
            let r = render_of(v);
            let c = v.category.len() as int;
            let t = v.text.len() as int;
            let p = v.prefix.len() as int;
            &&& r.subrange(0, 3) == seq!['-', ' ', '[']
            &&& r.subrange(3, 3 + c) == v.category
            &&& r.subrange(4 + c, 4 + c + t) == v.text
            &&& r.subrange(15 + c + t, 15 + c + t + p) == v.prefix
            &&& r.subrange(25 + c + t + p, r.len() - 2) == join_debug(v.tags)
            &&& r.subrange(r.len() - 2, r.len() as int) == seq![']', ')']
        }),
{
    reveal_strlit("- [");
    reveal_strlit("]");
    reveal_strlit(" (Prefix: '");
    reveal_strlit("', Tags: [");
    reveal_strlit("])");
    let r = render_of(v);
    let c = v.category.len() as int;
    let t = v.text.len() as int;
    let p = v.prefix.len() as int;
    let j = join_debug(v.tags);
    assert(r.subrange(0, 3) =~= seq!['-', ' ', '[']);
    assert(r.subrange(3, 3 + c) =~= v.category);
    assert(r.subrange(4 + c, 4 + c + t) =~= v.text);
    assert(r.subrange(15 + c + t, 15 + c + t + p) =~= v.prefix);
    assert(r.subrange(25 + c + t + p, r.len() - 2) =~= j);
    assert(r.subrange(r.len() - 2, r.len() as int) =~= seq![']', ')']);
}

/// Relies on `<str as Debug>::fmt` through `format!("{:?}")`: the quoted,
/// escaped form of the string, which depends on its characters alone.
#[verifier::external_body]
fn debug_quoted(s: &str) -> (r: String)
    ensures
        r@ == debug_str(s@),
{
    format!("{:?}", s)
}

impl SummaryElement {
    /// The ticket prefix, `letters-digits`, or empty.
    pub fn prefix(&self) -> (r: &str)
        ensures
            r@ == self@.prefix,
    {
        self.prefix.as_str()
    }

    /// The category keyword.
    pub fn category(&self) -> (r: &str)
        ensures
            r@ == self@.category,
    {
        self.category.as_str()
    }

    /// The text with its tag markers removed.
    pub fn text(&self) -> (r: &str)
        ensures
            r@ == self@.text,
    {
        self.text.as_str()
    }

    /// The tags, in the order of extraction.
    pub fn tags(&self) -> (r: &Vec<String>)
        ensures
            views(r@) == self@.tags,
    {
        &self.tags
    }

    /// The changelog line of this record.
    pub fn render(&self) -> (r: String)
        ensures
            r@ == render_of(self@),
    {
        let mut r = String::from_str("- [");
        r.append(self.category.as_str());
        r.append("]");
        r.append(self.text.as_str());
        r.append(" (Prefix: '");
        r.append(self.prefix.as_str());
        r.append("', Tags: [");
        let ghost head = r@;
        let mut i: usize = 0;
        assert(join_debug(views(self.tags@).take(0)) =~= Seq::<char>::empty());
        while i < self.tags.len()
            invariant
                i <= self.tags@.len(),
                r@ == head + join_debug(views(self.tags@).take(i as int)),
            decreases self.tags@.len() - i,
        {
            if i > 0 {
                r.append(", ");
            }
            let q = debug_quoted(self.tags[i].as_str());
            r.append(q.as_str());
            proof {
                let all = views(self.tags@);
                let next = all.take(i + 1);
                assert(next.drop_last() =~= all.take(i as int));
                assert(next.last() == self.tags@[i as int]@);
                assert(r@ =~= head + join_debug(next));
            }
            i = i + 1;
        }
        r.append("])");
        assert(views(self.tags@).take(self.tags@.len() as int) =~= views(self.tags@));
        r
    }
}

/// Every category keyword in brackets at the start of a line parses to that
/// category, with no prefix and no tags, and the text after the bracket as it
/// stands when that text holds no tag marker.
pub proof fn lemma_bracketed_keyword(k: int, t: Seq<char>)
    requires
        0 <= k < 5,
        forall|i: int| 0 <= i < t.len() ==> !marker_at(t, i),
    ensures
        summary_of(seq!['['] + keywords()[k] + seq![']'] + t) == Some(
            SummaryView {
                prefix: Seq::empty(),
                category: keywords()[k],
                text: t,
                tags: Seq::empty(),
            },
        ),
{
    let w = keywords()[k];
    let s = seq!['['] + w + seq![']'] + t;
    reveal_with_fuel(run_end, 2);
    reveal_with_fuel(first_keyword, 6);
    assert(s[0] == '[');
    assert(run_end(s, 0, CharClass::Alpha) == 0);
    assert(prefix_end(s) == 0);
    assert(run_end(s, 0, CharClass::Blank) == 0);
    assert(category_start(s) == 1);
    assert(s.subrange(1, 1 + w.len() as int) =~= w);
    assert(keyword_at(s, 1, k));
    assert forall|m: int| 0 <= m < 5 && m != k implies !keyword_at(s, 1, m) by {
        assert(s[1] == w[0]);
        assert(keywords()[m][0] != w[0]);
        if keyword_at(s, 1, m) {
            assert(s.subrange(1, 1 + keywords()[m].len() as int)[0] == s[1]);
        }
    }
    assert(first_keyword(s, 1, 0) == k);
    let e = 1 + w.len() as int;
    assert(s[e] == ']');
    assert(s.skip(e + 1) =~= t);
    assert(s.take(0) =~= Seq::<char>::empty());
    lemma_scan_plain(t, 0);
    assert(t.skip(0) =~= t);
}

} // verus!
