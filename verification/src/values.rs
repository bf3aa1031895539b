//! Parsed attribute values of the styling layer.  An attribute string arrives
//! as whitespace-split tokens; each value type consumes one token and maps the
//! keywords it knows to a closed variant.

use vstd::prelude::*;

verus! {

/// Main-axis alignment of a container's contents.
#[derive(Clone, Copy, PartialEq, Eq, Structural, Debug)]
pub enum Alignment {
    Start,
    Center,
    End,
    SpaceBetween,
    SpaceEvenly,
    SpaceAround,
}

/// Failure to parse an attribute value.
#[derive(Clone, Copy, PartialEq, Eq, Structural, Debug)]
pub struct ParseError;

/// Which alignment, if any, an attribute token denotes.
pub open spec fn alignment_of(s: Seq<char>) -> Option<Alignment> {
    if s == "start"@ {
        Some(Alignment::Start)
    } else if s == "center"@ {
        Some(Alignment::Center)
    } else if s == "end"@ {
        Some(Alignment::End)
    } else if s == "space-between"@ {
        Some(Alignment::SpaceBetween)
    } else if s == "space-evenly"@ {
        Some(Alignment::SpaceEvenly)
    } else if s == "space-around"@ {
        Some(Alignment::SpaceAround)
    } else {
        None
    }
}

/// Cursor over the tokens of one attribute value.
pub struct Parser {
    pub tokens: Vec<String>,
    pub pos: usize,
}

impl Parser {
    pub fn new(tokens: Vec<String>) -> (r: Parser)
        ensures
            r.tokens == tokens,
            r.pos == 0,
    {
        Parser { tokens, pos: 0 }
    }

    /// The next unconsumed token, if any.
    pub open spec fn peek_spec(self) -> Option<Seq<char>> {
        if self.pos < self.tokens@.len() {
            Some(self.tokens@[self.pos as int]@)
        } else {
            None
        }
    }
}

impl Alignment {
    /// Consume one token: the six alignment keywords map to their variants;
    /// any other token, or an exhausted parser, is a parse error and consumes
    /// nothing.
    pub fn from_parser(parser: &mut Parser) -> (r: Result<Alignment, ParseError>)
        ensures
            final(parser).tokens == old(parser).tokens,
            match old(parser).peek_spec() {
                Some(t) => match alignment_of(t) {
                    Some(a) => r == Ok::<Alignment, ParseError>(a)
                        && final(parser).pos == old(parser).pos + 1,
                    None => r == Err::<Alignment, ParseError>(ParseError)
                        && final(parser).pos == old(parser).pos,
                },
                None => r == Err::<Alignment, ParseError>(ParseError)
                    && final(parser).pos == old(parser).pos,
            },
    {
        if parser.pos >= parser.tokens.len() {
            return Err(ParseError);
        }
        let tok = &parser.tokens[parser.pos];
        let parsed = if *tok == "start".to_owned() {
            Some(Alignment::Start)
        } else if *tok == "center".to_owned() {
            Some(Alignment::Center)
        } else if *tok == "end".to_owned() {
            Some(Alignment::End)
        } else if *tok == "space-between".to_owned() {
            Some(Alignment::SpaceBetween)
        } else if *tok == "space-evenly".to_owned() {
            Some(Alignment::SpaceEvenly)
        } else if *tok == "space-around".to_owned() {
            Some(Alignment::SpaceAround)
        } else {
            None
        };
        match parsed {
            Some(a) => {
                parser.pos = parser.pos + 1;
                Ok(a)
            },
            None => Err(ParseError),
        }
    }
}

} // verus!
