//! Tag markers: ` :payload:` inside free text, where the payload is a
//! comma-separated list of tags.
use vstd::prelude::*;
use crate::text::{push_tag_pieces, tag_pieces, views};

verus! {

/// The regular expression that finds a tag marker, as characters: ` :(.*?):`.
pub open spec fn marker_pattern() -> Seq<char> {
    seq![' ', ':', '(', '.', '*', '?', ')', ':']
}

/// No colon and no line feed in `s[a..b)`.
pub open spec fn plain_between(s: Seq<char>, a: int, b: int) -> bool {
    forall|k: int| a <= k < b ==> #[trigger] s[k] != ':' && s[k] != '\n'
}

/// A tag marker starts at index `i` of `s` and its closing colon is at `j`:
/// a space, a colon, a payload without colon or line feed, a colon.
pub open spec fn marker_closes_at(s: Seq<char>, i: int, j: int) -> bool {
    &&& 0 <= i
    &&& i + 2 <= j < s.len()
    &&& s[i] == ' '
    &&& s[i + 1] == ':'
    &&& s[j] == ':'
    &&& plain_between(s, i + 2, j)
}

/// A tag marker starts at index `i` of `s`.
pub open spec fn marker_at(s: Seq<char>, i: int) -> bool {
    exists|j: int| marker_closes_at(s, i, j)
}

/// The closing colon of the tag marker that starts at index `i` of `s`.
pub open spec fn marker_close(s: Seq<char>, i: int) -> int {
    choose|j: int| marker_closes_at(s, i, j)
}

/// Tag extraction from index `i` of `s` on: markers are taken left to right,
/// each resuming after the previous one's closing colon. The result is the
/// tags of the markers in order, and the text with the markers removed.
pub open spec fn scan(s: Seq<char>, i: int) -> (Seq<Seq<char>>, Seq<char>)
    decreases s.len() - i,
{
    if i < 0 || i >= s.len() {
        (Seq::empty(), Seq::empty())
    } else if marker_at(s, i) {
        let j = marker_close(s, i);
        let r = scan(s, j + 1);
        (tag_pieces(s.subrange(i + 2, j)) + r.0, r.1)
    } else {
        let r = scan(s, i + 1);
        (r.0, seq![s[i]] + r.1)
    }
}

/// The tags that the markers of `s` hold, in order.
pub open spec fn tags_of(s: Seq<char>) -> Seq<Seq<char>> {
    scan(s, 0).0
}

/// `s` with every tag marker removed.
pub open spec fn cleaned_of(s: Seq<char>) -> Seq<char> {
    scan(s, 0).1
}

/// Relies on `regex::Regex::new` and `Regex::captures`: the pattern ` :(.*?):`
/// compiles, and `captures` gives the leftmost match. Its `.*?` is lazy and
/// its `.` is any character but a line feed, so the match is the leftmost
/// ` :` that a colon follows with no line feed before it, and closes at the
/// first such colon. The result is the text before the match, the payload
/// (group 1), and the text after the match.
#[verifier::external_body]
fn first_marker(pattern: &str, s: &str) -> (r: Option<(String, String, String)>)
    requires
        pattern@ == marker_pattern(),
    ensures
        match r {
            None => forall|i: int| 0 <= i < s@.len() ==> !marker_at(s@, i),
            Some(t) => {
                let i = t.0@.len() as int;
                let j = i + 2 + t.1@.len();
                &&& marker_closes_at(s@, i, j)
                &&& forall|k: int| 0 <= k < i ==> !marker_at(s@, k)
                &&& t.0@ == s@.take(i)
                &&& t.1@ == s@.subrange(i + 2, j)
                &&& t.2@ == s@.skip(j + 1)
            },
        },
{
    let caps = regex::Regex::new(pattern).unwrap().captures(s)?;
    let (whole, payload) = (caps.get(0).unwrap(), caps.get(1).unwrap());
    Some((
        s[..whole.start()].to_string(),
        payload.as_str().to_string(),
        s[whole.end()..].to_string(),
    ))
}

proof fn lemma_close_unique(s: Seq<char>, i: int, j: int)
    requires
        marker_closes_at(s, i, j),
    ensures
        marker_at(s, i),
        marker_close(s, i) == j,
{
    let c = marker_close(s, i);
    assert(marker_closes_at(s, i, c));
    if c < j {
        assert(s[c] != ':');
    } else if c > j {
        assert(s[j] != ':');
    }
}

proof fn lemma_shift(s: Seq<char>, pos: int, i: int)
    requires
        0 <= pos <= s.len(),
        0 <= i,
    ensures
        marker_at(s.skip(pos), i) == marker_at(s, pos + i),
        forall|j: int|
            #[trigger] marker_closes_at(s.skip(pos), i, j) == marker_closes_at(s, pos + i, pos + j),
{
    let t = s.skip(pos);
    assert forall|j: int| #[trigger]
        marker_closes_at(t, i, j) == marker_closes_at(s, pos + i, pos + j) by {
        if i + 2 <= j < t.len() {
            assert(t[i] == s[pos + i]);
            assert(t[i + 1] == s[pos + i + 1]);
            assert(t[j] == s[pos + j]);
            assert(plain_between(t, i + 2, j) == plain_between(s, pos + i + 2, pos + j)) by {
                if plain_between(t, i + 2, j) {
                    assert forall|k: int| pos + i + 2 <= k < pos + j implies #[trigger] s[k]
                        != ':' && s[k] != '\n' by {
                        assert(t[k - pos] == s[k]);
                    }
                }
                if plain_between(s, pos + i + 2, pos + j) {
                    assert forall|k: int| i + 2 <= k < j implies #[trigger] t[k] != ':' && t[k]
                        != '\n' by {
                        assert(t[k] == s[pos + k]);
                    }
                }
            }
        }
    }
    if marker_at(t, i) {
        let j = marker_close(t, i);
        assert(marker_closes_at(s, pos + i, pos + j));
    }
    if marker_at(s, pos + i) {
        let j = marker_close(s, pos + i);
        assert(marker_closes_at(t, i, j - pos));
    }
}

pub(crate) proof fn lemma_scan_plain(s: Seq<char>, pos: int)
    requires
        0 <= pos <= s.len(),
        forall|i: int| pos <= i < s.len() ==> !marker_at(s, i),
    ensures
        scan(s, pos) == (Seq::<Seq<char>>::empty(), s.skip(pos)),
    decreases s.len() - pos,
{
    if pos == s.len() {
        assert(s.skip(pos) =~= Seq::<char>::empty());
    } else {
        lemma_scan_plain(s, pos + 1);
        assert(seq![s[pos]] + s.skip(pos + 1) =~= s.skip(pos));
    }
}

proof fn lemma_scan_marker(s: Seq<char>, pos: int, i: int, j: int)
    requires
        0 <= pos <= i,
        marker_closes_at(s, i, j),
        forall|k: int| pos <= k < i ==> !marker_at(s, k),
    ensures
        scan(s, pos).0 == tag_pieces(s.subrange(i + 2, j)) + scan(s, j + 1).0,
        scan(s, pos).1 == s.subrange(pos, i) + scan(s, j + 1).1,
    decreases i - pos,
{
    if pos == i {
        lemma_close_unique(s, i, j);
        assert(s.subrange(pos, i) =~= Seq::<char>::empty());
    } else {
        lemma_scan_marker(s, pos + 1, i, j);
        assert(seq![s[pos]] + s.subrange(pos + 1, i) =~= s.subrange(pos, i));
    }
}

/// Extracts the tag markers of `text`: returns the tags in order, and the text
/// with the markers removed.
pub fn parse_tags(text: &str) -> (r: (Vec<String>, String))
    ensures
        views(r.0@) == tags_of(text@),
        r.1@ == cleaned_of(text@),
{
    let pattern = " :(.*?):";
    proof {
        reveal_strlit(" :(.*?):");
        assert(pattern@ =~= marker_pattern());
    }
    let mut tags: Vec<String> = Vec::new();
    let mut cleaned = String::new();
    let mut rest = text.to_owned();
    let ghost mut pos: int = 0;
    assert(text@.skip(0) =~= text@);
    assert(views(tags@) =~= Seq::<Seq<char>>::empty());
    assert(cleaned@ =~= Seq::<char>::empty());
    loop
        invariant_except_break
            pattern@ == marker_pattern(),
            0 <= pos <= text@.len(),
            rest@ == text@.skip(pos),
            views(tags@) + scan(text@, pos).0 == tags_of(text@),
            cleaned@ + scan(text@, pos).1 == cleaned_of(text@),
        ensures
            views(tags@) == tags_of(text@),
            cleaned@ == cleaned_of(text@),
        decreases text@.len() - pos,
    {
        match first_marker(pattern, rest.as_str()) {
            None => {
                proof {
                    assert forall|i: int| pos <= i < text@.len() implies !marker_at(text@, i) by {
                        lemma_shift(text@, pos, i - pos);
                    }
                    lemma_scan_plain(text@, pos);
                }
                cleaned.append(rest.as_str());
                assert(views(tags@) =~= views(tags@) + Seq::<Seq<char>>::empty());
                break ;
            },
            Some((before, payload, after)) => {
                let ghost i = pos + before@.len();
                let ghost j = i + 2 + payload@.len();
                proof {
                    lemma_shift(text@, pos, i - pos);
                    assert(marker_closes_at(rest@, i - pos, j - pos));
                    assert(marker_closes_at(text@, i, j));
                    assert forall|k: int| pos <= k < i implies !marker_at(text@, k) by {
                        lemma_shift(text@, pos, k - pos);
                    }
                    lemma_scan_marker(text@, pos, i, j);
                    assert(before@ =~= text@.subrange(pos, i));
                    assert(payload@ =~= text@.subrange(i + 2, j));
                    assert(after@ =~= text@.skip(j + 1));
                }
                let ghost old_tags = views(tags@);
                let ghost old_cleaned = cleaned@;
                cleaned.append(before.as_str());
                push_tag_pieces(payload.as_str(), &mut tags);
                rest = after;
                proof {
                    pos = j + 1;
                    assert(views(tags@) + scan(text@, pos).0 =~= old_tags + (tag_pieces(
                        payload@,
                    ) + scan(text@, pos).0));
                    assert(cleaned@ + scan(text@, pos).1 =~= old_cleaned + (before@ + scan(
                        text@,
                        pos,
                    ).1));
                }
            },
        }
    }
    (tags, cleaned)
}

/// Running extraction again on its cleaned text finds no tags and leaves the
/// text as it is, unless taking the markers out brought the pieces of a new
/// marker together.
pub proof fn lemma_extract_idempotent(s: Seq<char>)
    requires
        forall|i: int| 0 <= i < cleaned_of(s).len() ==> !marker_at(cleaned_of(s), i),
    ensures
        tags_of(cleaned_of(s)) == Seq::<Seq<char>>::empty(),
        cleaned_of(cleaned_of(s)) == cleaned_of(s),
{
    let c = cleaned_of(s);
    lemma_scan_plain(c, 0);
    assert(c.skip(0) =~= c);
}

/// A text that is one marker around a payload without colon or line feed
/// gives the payload's comma-separated pieces, trimmed and in order, and
/// nothing remains of the text.
pub proof fn lemma_extract_one_marker(p: Seq<char>)
    requires
        forall|k: int| 0 <= k < p.len() ==> #[trigger] p[k] != ':' && p[k] != '\n',
    ensures
        tags_of(seq![' ', ':'] + p + seq![':']) == tag_pieces(p),
        cleaned_of(seq![' ', ':'] + p + seq![':']) == Seq::<char>::empty(),
{
    let s = seq![' ', ':'] + p + seq![':'];
    let j = p.len() + 2int;
    assert forall|k: int| 2 <= k < j implies #[trigger] s[k] != ':' && s[k] != '\n' by {
        assert(s[k] == p[k - 2]);
    }
    assert(marker_closes_at(s, 0, j));
    lemma_scan_marker(s, 0, 0, j);
    assert(s.subrange(2, j) =~= p);
    assert(s.subrange(0, 0) =~= Seq::<char>::empty());
    assert(tag_pieces(p) + Seq::<Seq<char>>::empty() =~= tag_pieces(p));
}

} // verus!
