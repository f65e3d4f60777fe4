//! Splitting a template into literal text and placeholders.
//!
//! A placeholder is an occurrence of a declared token in the template text.
//! The text is read once, from left to right: at each position the longest
//! declared token that starts there is taken as a placeholder, and reading
//! goes on behind it, so placeholders never overlap. What lies between two
//! placeholders is literal text. Text that looks like a token but was not
//! declared is literal too.
use crate::text::{substring, to_chars};
use vstd::prelude::*;
use vstd::string::*;

verus! {

/// One run of a template.
#[derive(Debug, PartialEq, Eq)]
pub enum Segment {
    /// Text that is printed as it stands.
    Literal(String),
    /// A token, to be replaced by the value that the print data gives it.
    Placeholder(String),
}

/// What a [`Segment`] stands for.
pub ghost enum Piece {
    Literal(Seq<char>),
    Placeholder(Seq<char>),
}

impl View for Segment {
    type V = Piece;

    open spec fn view(&self) -> Piece {
        match self {
            Segment::Literal(text) => Piece::Literal(text@),
            Segment::Placeholder(token) => Piece::Placeholder(token@),
        }
    }
}

impl Piece {
    /// The template text that the piece was read from.
    pub open spec fn source(self) -> Seq<char> {
        match self {
            Piece::Literal(text) => text,
            Piece::Placeholder(token) => token,
        }
    }
}

/// The pieces that a list of segments stands for.
pub open spec fn pieces(segments: Seq<Segment>) -> Seq<Piece> {
    Seq::new(segments.len(), |i: int| segments[i]@)
}

/// The tokens of a list of names: the names that are not empty.
pub open spec fn token_set(names: Seq<Seq<char>>) -> Set<Seq<char>> {
    Set::new(
        |token: Seq<char>|
            token.len() > 0 && exists|i: int| 0 <= i < names.len() && #[trigger] names[i] == token,
    )
}

/// The names that a list of strings holds.
pub open spec fn string_views(strings: Seq<String>) -> Seq<Seq<char>> {
    Seq::new(strings.len(), |i: int| strings[i]@)
}

/// The names that a list of character vectors holds.
pub open spec fn vec_views(vecs: Seq<Vec<char>>) -> Seq<Seq<char>> {
    Seq::new(vecs.len(), |i: int| vecs[i]@)
}

/// `text` continues at `pos` with `token`.
pub open spec fn occurs_at(text: Seq<char>, pos: int, token: Seq<char>) -> bool {
    pos + token.len() <= text.len() && text.subrange(pos, pos + token.len()) == token
}

/// A declared token of `len` characters starts at `pos`.
pub open spec fn is_match(text: Seq<char>, pos: int, len: int, declared: Set<Seq<char>>) -> bool {
    0 < len && pos + len <= text.len() && declared.contains(text.subrange(pos, pos + len))
}

/// The length of the longest declared token of at most `limit` characters
/// that starts at `pos`, or 0 where none does.
pub open spec fn longest_match(
    text: Seq<char>,
    pos: int,
    limit: int,
    declared: Set<Seq<char>>,
) -> int
    decreases limit,
{
    if limit <= 0 {
        0
    } else if is_match(text, pos, limit, declared) {
        limit
    } else {
        longest_match(text, pos, limit - 1, declared)
    }
}

/// The length of the longest declared token that starts at `pos`, or 0
/// where none does.
pub open spec fn match_len(text: Seq<char>, pos: int, declared: Set<Seq<char>>) -> int {
    longest_match(text, pos, text.len() - pos, declared)
}

/// `text[from..to]` as a literal piece; nothing where it is empty.
pub open spec fn literal(text: Seq<char>, from: int, to: int) -> Seq<Piece> {
    if from < to {
        seq![Piece::Literal(text.subrange(from, to))]
    } else {
        seq![]
    }
}

/// The pieces of `text[literal_start..]`, where reading stands at `pos` and
/// no token starts in `text[literal_start..pos]`.
pub open spec fn scan(
    text: Seq<char>,
    declared: Set<Seq<char>>,
    literal_start: int,
    pos: int,
) -> Seq<Piece>
    decreases text.len() - pos,
    when 0 <= literal_start <= pos <= text.len()
    via scan_decreases
{
    let found = match_len(text, pos, declared);
    if pos >= text.len() {
        literal(text, literal_start, pos)
    } else if found > 0 {
        literal(text, literal_start, pos) + seq![
            Piece::Placeholder(text.subrange(pos, pos + found)),
        ] + scan(text, declared, pos + found, pos + found)
    } else {
        scan(text, declared, literal_start, pos + 1)
    }
}

/// The pieces of a template: literal runs and placeholders in turn.
pub open spec fn tokenize(text: Seq<char>, declared: Set<Seq<char>>) -> Seq<Piece> {
    scan(text, declared, 0, 0)
}

/// The text that a list of pieces was read from.
pub open spec fn template_text(pieces: Seq<Piece>) -> Seq<char>
    decreases pieces.len(),
{
    if pieces.len() == 0 {
        seq![]
    } else {
        pieces[0].source() + template_text(pieces.drop_first())
    }
}

/// Every placeholder among the pieces is a declared token.
pub open spec fn placeholders_declared(pieces: Seq<Piece>, declared: Set<Seq<char>>) -> bool {
    forall|i: int|
        0 <= i < pieces.len() ==> ((#[trigger] pieces[i]) matches Piece::Placeholder(token)
            ==> declared.contains(token))
}

/// What `longest_match` finds: a match, and the longest one within the
/// limit.
pub proof fn lemma_longest_match(text: Seq<char>, pos: int, limit: int, declared: Set<Seq<char>>)
    ensures
        0 <= longest_match(text, pos, limit, declared),
        limit >= 0 ==> longest_match(text, pos, limit, declared) <= limit,
        longest_match(text, pos, limit, declared) > 0 ==> is_match(
            text,
            pos,
            longest_match(text, pos, limit, declared),
            declared,
        ),
        forall|len: int|
            longest_match(text, pos, limit, declared) < len <= limit ==> !is_match(
                text,
                pos,
                len,
                declared,
            ),
    decreases limit,
{
    if limit > 0 && !is_match(text, pos, limit, declared) {
        lemma_longest_match(text, pos, limit - 1, declared);
    }
}

/// A match within the limit with no longer one is what `longest_match`
/// finds.
pub proof fn lemma_longest_match_is(
    text: Seq<char>,
    pos: int,
    limit: int,
    declared: Set<Seq<char>>,
    found: int,
)
    requires
        0 <= found <= limit,
        found > 0 ==> is_match(text, pos, found, declared),
        forall|len: int| found < len <= limit ==> !is_match(text, pos, len, declared),
    ensures
        longest_match(text, pos, limit, declared) == found,
    decreases limit,
{
    if limit > 0 && found < limit {
        lemma_longest_match_is(text, pos, limit - 1, declared, found);
    }
}

#[via_fn]
proof fn scan_decreases(text: Seq<char>, declared: Set<Seq<char>>, literal_start: int, pos: int) {
    lemma_longest_match(text, pos, text.len() - pos, declared);
}

/// Every placeholder that scanning finds is a declared token.
proof fn lemma_scan_placeholders_declared(
    text: Seq<char>,
    declared: Set<Seq<char>>,
    literal_start: int,
    pos: int,
)
    requires
        0 <= literal_start <= pos <= text.len(),
    ensures
        placeholders_declared(scan(text, declared, literal_start, pos), declared),
    decreases text.len() - pos,
{
    let found = match_len(text, pos, declared);
    lemma_longest_match(text, pos, text.len() - pos, declared);
    if pos >= text.len() {
    } else if found > 0 {
        lemma_scan_placeholders_declared(text, declared, pos + found, pos + found);
        let head = literal(text, literal_start, pos) + seq![
            Piece::Placeholder(text.subrange(pos, pos + found)),
        ];
        let tail = scan(text, declared, pos + found, pos + found);
        assert forall|i: int| 0 <= i < (head + tail).len() implies ((#[trigger] (head + tail)[i])
            matches Piece::Placeholder(token) ==> declared.contains(token)) by {
            if i >= head.len() {
                assert((head + tail)[i] == tail[i - head.len()]);
            }
        }
    } else {
        lemma_scan_placeholders_declared(text, declared, literal_start, pos + 1);
    }
}

/// Every placeholder of a tokenized template is a declared token.
pub proof fn lemma_tokenize_placeholders_declared(text: Seq<char>, declared: Set<Seq<char>>)
    ensures
        placeholders_declared(tokenize(text, declared), declared),
{
    lemma_scan_placeholders_declared(text, declared, 0, 0);
}

/// The text of a list of pieces is the text of its front followed by the
/// text of its back.
proof fn lemma_template_text_concat(front: Seq<Piece>, back: Seq<Piece>)
    ensures
        template_text(front + back) == template_text(front) + template_text(back),
    decreases front.len(),
{
    if front.len() == 0 {
        assert(front + back =~= back);
        assert(template_text(front) + template_text(back) =~= template_text(back));
    } else {
        lemma_template_text_concat(front.drop_first(), back);
        assert((front + back).drop_first() =~= front.drop_first() + back);
        assert(template_text(front + back) =~= template_text(front) + template_text(back));
    }
}

/// The pieces that scanning finds, put together again, are the text that
/// was scanned.
proof fn lemma_scan_reassembles(
    text: Seq<char>,
    declared: Set<Seq<char>>,
    literal_start: int,
    pos: int,
)
    requires
        0 <= literal_start <= pos <= text.len(),
    ensures
        template_text(scan(text, declared, literal_start, pos)) == text.subrange(
            literal_start,
            text.len() as int,
        ),
    decreases text.len() - pos,
{
    reveal_with_fuel(template_text, 3);
    let found = match_len(text, pos, declared);
    lemma_longest_match(text, pos, text.len() - pos, declared);
    let run = literal(text, literal_start, pos);
    assert(template_text(run) =~= text.subrange(literal_start, pos)) by {
        if literal_start < pos {
            assert(run.drop_first() =~= Seq::<Piece>::empty());
        }
    }
    if pos >= text.len() {
    } else if found > 0 {
        let hit = seq![Piece::Placeholder(text.subrange(pos, pos + found))];
        let tail = scan(text, declared, pos + found, pos + found);
        lemma_scan_reassembles(text, declared, pos + found, pos + found);
        lemma_template_text_concat(run + hit, tail);
        lemma_template_text_concat(run, hit);
        assert(hit.drop_first() =~= Seq::<Piece>::empty());
        assert(template_text(hit) =~= text.subrange(pos, pos + found));
        assert(template_text(run + hit + tail) =~= text.subrange(literal_start, text.len() as int));
    } else {
        lemma_scan_reassembles(text, declared, literal_start, pos + 1);
    }
}

/// A tokenized template, put together again, is the template.
pub proof fn lemma_tokenize_reassembles(text: Seq<char>, declared: Set<Seq<char>>)
    ensures
        template_text(tokenize(text, declared)) == text,
{
    lemma_scan_reassembles(text, declared, 0, 0);
    assert(text.subrange(0, text.len() as int) =~= text);
}

/// No declared token occurs in `text`.
pub open spec fn holds_no_token(text: Seq<char>, declared: Set<Seq<char>>) -> bool {
    forall|pos: int, len: int| 0 <= pos ==> !#[trigger] is_match(text, pos, len, declared)
}

/// No literal piece holds a declared token.
pub open spec fn literals_hold_no_token(pieces: Seq<Piece>, declared: Set<Seq<char>>) -> bool {
    forall|i: int|
        0 <= i < pieces.len() ==> ((#[trigger] pieces[i]) matches Piece::Literal(text)
            ==> holds_no_token(text, declared))
}

/// No declared token starts in `text[from..to]`.
pub open spec fn none_starts_in(text: Seq<char>, from: int, to: int, declared: Set<Seq<char>>) -> bool {
    forall|pos: int, len: int| from <= pos < to ==> !#[trigger] is_match(text, pos, len, declared)
}

proof fn lemma_literal_holds_no_token(
    text: Seq<char>,
    declared: Set<Seq<char>>,
    from: int,
    to: int,
)
    requires
        0 <= from <= to <= text.len(),
        none_starts_in(text, from, to, declared),
    ensures
        literals_hold_no_token(literal(text, from, to), declared),
{
    if from < to {
        let run = text.subrange(from, to);
        assert forall|pos: int, len: int| 0 <= pos implies !#[trigger] is_match(
            run,
            pos,
            len,
            declared,
        ) by {
            if is_match(run, pos, len, declared) {
                assert(run.subrange(pos, pos + len) =~= text.subrange(from + pos, from + pos + len));
                assert(is_match(text, from + pos, len, declared));
            }
        }
    }
}

proof fn lemma_scan_literals_hold_no_token(
    text: Seq<char>,
    declared: Set<Seq<char>>,
    literal_start: int,
    pos: int,
)
    requires
        0 <= literal_start <= pos <= text.len(),
        none_starts_in(text, literal_start, pos, declared),
    ensures
        literals_hold_no_token(scan(text, declared, literal_start, pos), declared),
    decreases text.len() - pos,
{
    let found = match_len(text, pos, declared);
    lemma_longest_match(text, pos, text.len() - pos, declared);
    lemma_literal_holds_no_token(text, declared, literal_start, pos);
    if pos >= text.len() {
    } else if found > 0 {
        lemma_scan_literals_hold_no_token(text, declared, pos + found, pos + found);
        let head = literal(text, literal_start, pos) + seq![
            Piece::Placeholder(text.subrange(pos, pos + found)),
        ];
        let tail = scan(text, declared, pos + found, pos + found);
        assert forall|i: int| 0 <= i < (head + tail).len() implies ((#[trigger] (head + tail)[i])
            matches Piece::Literal(run) ==> holds_no_token(run, declared)) by {
            if i >= head.len() {
                assert((head + tail)[i] == tail[i - head.len()]);
            } else if i < literal(text, literal_start, pos).len() {
                assert((head + tail)[i] == literal(text, literal_start, pos)[i]);
            }
        }
    } else {
        assert forall|p: int, len: int| literal_start <= p < pos + 1 implies !#[trigger] is_match(
            text,
            p,
            len,
            declared,
        ) by {
            if p == pos && is_match(text, p, len, declared) {
                assert(0 < len <= text.len() - pos);
            }
        }
        lemma_scan_literals_hold_no_token(text, declared, literal_start, pos + 1);
    }
}

/// No declared token is left standing in the literal text of a tokenized
/// template: every occurrence that reading from the left comes upon has
/// become a placeholder.
pub proof fn lemma_tokenize_literals_hold_no_token(text: Seq<char>, declared: Set<Seq<char>>)
    ensures
        literals_hold_no_token(tokenize(text, declared), declared),
{
    lemma_scan_literals_hold_no_token(text, declared, 0, 0);
}

/// Whether `text` continues at `pos` with `token`.
fn continues_with(text: &Vec<char>, pos: usize, token: &Vec<char>) -> (found: bool)
    requires
        pos <= text.len(),
    ensures
        found == occurs_at(text@, pos as int, token@),
{
    if token.len() > text.len() - pos {
        return false;
    }
    let mut i: usize = 0;
    while i < token.len()
        invariant
            i <= token.len(),
            pos + token.len() <= text.len(),
            text@.subrange(pos as int, pos + i) == token@.subrange(0, i as int),
        decreases token.len() - i,
    {
        if text[pos + i] != token[i] {
            proof {
                let whole = text@.subrange(pos as int, pos + token.len());
                assert(whole[i as int] != token@[i as int]);
            }
            return false;
        }
        i += 1;
        assert(text@.subrange(pos as int, pos + i) =~= token@.subrange(0, i as int)) by {
            assert(text@.subrange(pos as int, pos + i - 1) == token@.subrange(0, i - 1));
            assert forall|k: int| 0 <= k < i implies text@.subrange(pos as int, pos + i)[k]
                == token@.subrange(0, i as int)[k] by {
                if k < i - 1 {
                    assert(text@.subrange(pos as int, pos + i - 1)[k] == token@.subrange(
                        0,
                        i - 1,
                    )[k]);
                }
            }
        }
    }
    assert(token@.subrange(0, token.len() as int) =~= token@);
    true
}

/// The length of the longest of `names` that starts at `pos`, or 0.
fn longest_token_at(text: &Vec<char>, pos: usize, names: &Vec<Vec<char>>) -> (found: usize)
    requires
        pos <= text.len(),
    ensures
        found == match_len(text@, pos as int, token_set(vec_views(names@))),
{
    let ghost declared = token_set(vec_views(names@));
    let mut best: usize = 0;
    let mut i: usize = 0;
    while i < names.len()
        invariant
            i <= names.len(),
            pos <= text.len(),
            declared == token_set(vec_views(names@)),
            best <= text.len() - pos,
            best > 0 ==> is_match(text@, pos as int, best as int, declared),
            forall|k: int|
                0 <= k < i && (#[trigger] names@[k])@.len() > best ==> !occurs_at(
                    text@,
                    pos as int,
                    names@[k]@,
                ),
        decreases names.len() - i,
    {
        if names[i].len() > best && continues_with(text, pos, &names[i]) {
            best = names[i].len();
            proof {
                assert(vec_views(names@)[i as int] == names@[i as int]@);
                assert(declared.contains(names@[i as int]@));
            }
        }
        i += 1;
    }
    proof {
        let limit = text.len() - pos;
        assert forall|len: int| best < len <= limit implies !is_match(
            text@,
            pos as int,
            len,
            declared,
        ) by {
            if is_match(text@, pos as int, len, declared) {
                let token = text@.subrange(pos as int, pos + len);
                let k = choose|k: int|
                    0 <= k < vec_views(names@).len() && #[trigger] vec_views(names@)[k] == token;
                assert(names@[k]@ == token);
                assert(occurs_at(text@, pos as int, names@[k]@));
            }
        }
        lemma_longest_match_is(text@, pos as int, limit, declared, best as int);
    }
    best
}

/// Splits `template` into its segments, with the non-empty strings among
/// `tokens` as the declared tokens.
pub fn split_template(template: &str, tokens: &Vec<String>) -> (segments: Vec<Segment>)
    ensures
        pieces(segments@) == tokenize(template@, token_set(string_views(tokens@))),
{
    let text = to_chars(template);
    let mut names: Vec<Vec<char>> = Vec::new();
    let mut t: usize = 0;
    while t < tokens.len()
        invariant
            t <= tokens.len(),
            vec_views(names@) == string_views(tokens@).take(t as int),
        decreases tokens.len() - t,
    {
        let ghost earlier = names@;
        assert(earlier.len() == t) by {
            assert(vec_views(earlier).len() == string_views(tokens@).take(t as int).len());
        }
        let name = to_chars(tokens[t].as_str());
        assert(name@ == tokens@[t as int]@);
        names.push(name);
        t += 1;
        assert(vec_views(names@) =~= string_views(tokens@).take(t as int)) by {
            assert forall|k: int| 0 <= k < t implies vec_views(names@)[k] == string_views(
                tokens@,
            ).take(t as int)[k] by {
                if k < t - 1 {
                    assert(vec_views(earlier)[k] == string_views(tokens@).take(t - 1)[k]);
                    assert(names@[k] == earlier[k]);
                } else {
                    assert(names@[k]@ == tokens@[k]@);
                }
            }
        }
    }
    assert(string_views(tokens@).take(t as int) =~= string_views(tokens@));
    let ghost declared = token_set(string_views(tokens@));
    let mut segments: Vec<Segment> = Vec::new();
    let mut literal_start: usize = 0;
    let mut pos: usize = 0;
    assert(pieces(segments@) + scan(text@, declared, 0, 0) =~= tokenize(text@, declared));
    while pos < text.len()
        invariant
            literal_start <= pos <= text.len(),
            text@ == template@,
            declared == token_set(vec_views(names@)),
            pieces(segments@) + scan(text@, declared, literal_start as int, pos as int)
                == tokenize(text@, declared),
        decreases text.len() - pos,
    {
        let ghost before = pieces(segments@);
        let ghost rest = scan(text@, declared, literal_start as int, pos as int);
        let found = longest_token_at(&text, pos, &names);
        proof {
            lemma_longest_match(text@, pos as int, text.len() - pos, declared);
        }
        if found > 0 {
            if literal_start < pos {
                segments.push(Segment::Literal(substring(template, literal_start, pos)));
            }
            assert(pieces(segments@) =~= before + literal(text@, literal_start as int, pos as int));
            let ghost middle = pieces(segments@);
            segments.push(Segment::Placeholder(substring(template, pos, pos + found)));
            assert(pieces(segments@) =~= middle + seq![
                Piece::Placeholder(text@.subrange(pos as int, pos + found)),
            ]);
            pos = pos + found;
            literal_start = pos;
            assert(pieces(segments@) + scan(text@, declared, literal_start as int, pos as int)
                =~= before + rest);
        } else {
            pos = pos + 1;
        }
    }
    let ghost before = pieces(segments@);
    if literal_start < pos {
        segments.push(Segment::Literal(substring(template, literal_start, pos)));
    }
    assert(pieces(segments@) =~= before + scan(text@, declared, literal_start as int, pos as int));
    segments
}

} // verus!
