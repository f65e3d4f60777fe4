//! Print templates and the data that fills them in.
//!
//! An [`Instruction`] is built once from a template and the tokens that may
//! stand in it; building splits the template into literal text and
//! placeholders. [`resolve`] then fills the placeholders from one
//! [`PrintData`] after another, without reading the template again.
pub mod justification;
pub mod print_data;
pub mod template;

use crate::command::Font;
use crate::error::Error;
use crate::instruction::justification::Justification;
use crate::instruction::print_data::PrintData;
use crate::instruction::template::{
    lemma_tokenize_placeholders_declared, pieces, placeholders_declared, split_template,
    string_views, token_set, tokenize, Piece, Segment,
};
use vstd::prelude::*;
use vstd::string::*;

verus! {

/// What an [`Instruction`] stands for.
pub ghost struct InstructionView {
    /// The template: literal text and placeholders in turn.
    pub pieces: Seq<Piece>,
    pub font: Font,
    pub justification: Justification,
    /// The tokens that the template may hold as placeholders.
    pub declared: Set<Seq<char>>,
}

impl InstructionView {
    /// What every instruction satisfies: each placeholder of its template is
    /// a declared token.
    pub open spec fn wf(self) -> bool {
        placeholders_declared(self.pieces, self.declared)
    }
}

/// A reusable print template: text with named placeholders, and the font
/// and justification to print it in.
#[derive(Debug)]
pub struct Instruction {
    segments: Vec<Segment>,
    font: Font,
    justification: Justification,
    tokens: Vec<String>,
}

impl View for Instruction {
    type V = InstructionView;

    closed spec fn view(&self) -> InstructionView {
        InstructionView {
            pieces: pieces(self.segments@),
            font: self.font,
            justification: self.justification,
            declared: token_set(string_views(self.tokens@)),
        }
    }
}

impl Instruction {
    #[verifier::type_invariant]
    spec fn inv(&self) -> bool {
        self@.wf()
    }

    /// A text instruction. The non-empty strings among `tokens` are the
    /// declared tokens; each of their occurrences in `template` becomes a
    /// placeholder, and the rest of the template is literal text.
    pub fn text(template: &str, font: Font, justification: Justification, tokens: Vec<String>) -> (instruction:
        Instruction)
        ensures
            instruction@.pieces == tokenize(template@, token_set(string_views(tokens@))),
            instruction@.font == font,
            instruction@.justification == justification,
            instruction@.declared == token_set(string_views(tokens@)),
            instruction@.wf(),
    {
        let segments = split_template(template, &tokens);
        proof {
            lemma_tokenize_placeholders_declared(template@, token_set(string_views(tokens@)));
        }
        Instruction { segments, font, justification, tokens }
    }

    /// The font that the instruction prints in.
    pub fn font(&self) -> (font: Font)
        ensures
            font == self@.font,
    {
        self.font
    }

    /// The justification that the instruction prints with.
    pub fn justification(&self) -> (justification: Justification)
        ensures
            justification == self@.justification,
    {
        self.justification
    }

    /// The template as it was split when the instruction was built.
    pub fn segments(&self) -> (segments: &Vec<Segment>)
        ensures
            pieces(segments@) == self@.pieces,
            self@.wf(),
    {
        proof {
            use_type_invariant(self);
        }
        &self.segments
    }

    /// The strings that the instruction was declared with.
    pub fn tokens(&self) -> (tokens: &Vec<String>)
        ensures
            token_set(string_views(tokens@)) == self@.declared,
            self@.wf(),
    {
        proof {
            use_type_invariant(self);
        }
        &self.tokens
    }
}

/// The first placeholder, from the left, that the data has no value for.
pub open spec fn first_missing(pieces: Seq<Piece>, data: Map<Seq<char>, Seq<char>>) -> Option<
    Seq<char>,
>
    decreases pieces.len(),
{
    if pieces.len() == 0 {
        None
    } else if pieces[0] matches Piece::Placeholder(token) && !data.contains_key(token) {
        Some(pieces[0].source())
    } else {
        first_missing(pieces.drop_first(), data)
    }
}

/// What a piece prints: a literal its text, a placeholder the value that
/// the data gives its token, character for character.
pub open spec fn replaced(piece: Piece, data: Map<Seq<char>, Seq<char>>) -> Seq<char> {
    match piece {
        Piece::Literal(text) => text,
        Piece::Placeholder(token) => data[token],
    }
}

/// What the pieces print, one after the other.
pub open spec fn substituted(pieces: Seq<Piece>, data: Map<Seq<char>, Seq<char>>) -> Seq<char>
    decreases pieces.len(),
{
    if pieces.len() == 0 {
        seq![]
    } else {
        substituted(pieces.drop_last(), data) + replaced(pieces.last(), data)
    }
}

/// No placeholder among the pieces is without a value.
pub open spec fn all_resolved(pieces: Seq<Piece>, data: Map<Seq<char>, Seq<char>>) -> bool {
    forall|i: int|
        0 <= i < pieces.len() ==> ((#[trigger] pieces[i]) matches Piece::Placeholder(token)
            ==> data.contains_key(token))
}

/// The resolved text, or the token that has no value.
pub open spec fn resolution(pieces: Seq<Piece>, data: Map<Seq<char>, Seq<char>>) -> Result<
    Seq<char>,
    Seq<char>,
> {
    match first_missing(pieces, data) {
        Some(token) => Err(token),
        None => Ok(substituted(pieces, data)),
    }
}

/// `result` is what [`resolve`] returns on a template of these pieces and
/// this data.
pub open spec fn is_resolution(
    result: Result<String, Error>,
    pieces: Seq<Piece>,
    data: Map<Seq<char>, Seq<char>>,
) -> bool {
    match resolution(pieces, data) {
        Ok(text) => result matches Ok(resolved) && resolved@ == text,
        Err(token) => result matches Err(Error::MissingSubstitution(missing)) && missing@ == token,
    }
}

/// Fills the placeholders of `instruction` from `data`.
///
/// Fails with [`Error::MissingSubstitution`], naming the first placeholder
/// from the left that `data` has no value for, exactly when there is one;
/// then nothing of the text is returned. Otherwise every placeholder is
/// replaced by its value as it stands: a value is not searched for tokens.
/// Values for tokens that the template does not hold are ignored.
pub fn resolve(instruction: &Instruction, data: &PrintData) -> (result: Result<String, Error>)
    ensures
        is_resolution(result, instruction@.pieces, data@),
{
    let ghost all = instruction@.pieces;
    let mut text = String::new();
    let mut i: usize = 0;
    assert(all.skip(0) =~= all);
    assert(all.take(0) =~= Seq::<Piece>::empty());
    while i < instruction.segments.len()
        invariant
            i <= instruction.segments.len(),
            all == pieces(instruction.segments@),
            first_missing(all, data@) == first_missing(all.skip(i as int), data@),
            text@ == substituted(all.take(i as int), data@),
        decreases instruction.segments.len() - i,
    {
        proof {
            assert(all.skip(i as int)[0] == all[i as int]);
            assert(all.skip(i as int).drop_first() =~= all.skip(i + 1));
            assert(all.take(i + 1).drop_last() =~= all.take(i as int));
            assert(all.take(i + 1).last() == all[i as int]);
            assert(all[i as int] == instruction.segments@[i as int]@);
        }
        match &instruction.segments[i] {
            Segment::Literal(literal) => {
                text.append(literal.as_str());
            },
            Segment::Placeholder(token) => {
                match data.get(token) {
                    Some(value) => {
                        text.append(value.as_str());
                    },
                    None => {
                        return Err(Error::MissingSubstitution(token.clone()));
                    },
                }
            },
        }
        i += 1;
    }
    assert(all.take(i as int) =~= all);
    Ok(text)
}

/// `first_missing` finds nothing exactly when every placeholder has a
/// value; what it finds is a placeholder without one.
pub proof fn lemma_first_missing(pieces: Seq<Piece>, data: Map<Seq<char>, Seq<char>>)
    ensures
        first_missing(pieces, data) is None <==> all_resolved(pieces, data),
        first_missing(pieces, data) matches Some(token) ==> !data.contains_key(token) && exists|
            i: int,
        |
            0 <= i < pieces.len() && #[trigger] pieces[i] == Piece::Placeholder(token),
    decreases pieces.len(),
{
    if pieces.len() > 0 {
        let rest = pieces.drop_first();
        lemma_first_missing(rest, data);
        if pieces[0] matches Piece::Placeholder(token) && !data.contains_key(token) {
            assert(pieces[0] == Piece::Placeholder(pieces[0].source()));
        } else {
            if first_missing(rest, data) is Some {
                let token = first_missing(rest, data)->0;
                let i = choose|i: int|
                    0 <= i < rest.len() && #[trigger] rest[i] == Piece::Placeholder(token);
                assert(pieces[i + 1] == Piece::Placeholder(token));
            }
            if all_resolved(rest, data) {
                assert forall|i: int| 0 <= i < pieces.len() implies ((#[trigger] pieces[i])
                    matches Piece::Placeholder(token) ==> data.contains_key(token)) by {
                    if i > 0 {
                        assert(pieces[i] == rest[i - 1]);
                    }
                }
            }
            if all_resolved(pieces, data) {
                assert forall|i: int| 0 <= i < rest.len() implies ((#[trigger] rest[i])
                    matches Piece::Placeholder(token) ==> data.contains_key(token)) by {
                    assert(rest[i] == pieces[i + 1]);
                }
            }
        }
    }
}

/// Where the data has a value for every declared token, resolution
/// succeeds, and no placeholder is left without its value.
pub proof fn lemma_complete_data_resolves(
    instruction: InstructionView,
    data: Map<Seq<char>, Seq<char>>,
)
    requires
        instruction.wf(),
        forall|token: Seq<char>| instruction.declared.contains(token) ==> data.contains_key(token),
    ensures
        all_resolved(instruction.pieces, data),
        resolution(instruction.pieces, data) == Ok::<Seq<char>, Seq<char>>(
            substituted(instruction.pieces, data),
        ),
{
    lemma_first_missing(instruction.pieces, data);
}

/// A value for a token that the template does not hold changes nothing.
pub proof fn lemma_unused_value_ignored(
    pieces: Seq<Piece>,
    data: Map<Seq<char>, Seq<char>>,
    token: Seq<char>,
    value: Seq<char>,
)
    requires
        forall|i: int| 0 <= i < pieces.len() ==> #[trigger] pieces[i] != Piece::Placeholder(token),
    ensures
        first_missing(pieces, data.insert(token, value)) == first_missing(pieces, data),
        substituted(pieces, data.insert(token, value)) == substituted(pieces, data),
        resolution(pieces, data.insert(token, value)) == resolution(pieces, data),
    decreases pieces.len(),
{
    if pieces.len() > 0 {
        let more = data.insert(token, value);
        let rest = pieces.drop_first();
        let front = pieces.drop_last();
        assert forall|i: int| 0 <= i < rest.len() implies #[trigger] rest[i] != Piece::Placeholder(
            token,
        ) by {
            assert(rest[i] == pieces[i + 1]);
        }
        assert forall|i: int| 0 <= i < front.len() implies #[trigger] front[i]
            != Piece::Placeholder(token) by {
            assert(front[i] == pieces[i]);
        }
        lemma_unused_value_ignored(rest, data, token, value);
        lemma_unused_value_ignored(front, data, token, value);
        assert(pieces[0] != Piece::Placeholder(token));
        assert(pieces[pieces.len() - 1] != Piece::Placeholder(token));
        assert(replaced(pieces.last(), more) == replaced(pieces.last(), data));
    }
}

} // verus!
