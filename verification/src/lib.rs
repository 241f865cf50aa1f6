//! Velra's stage-0 toolchain: lexer, parser, the `VELRA-AST-1` artifact
//! format (encoder and loader) and the runtime's arithmetic core.
pub mod artifact;
pub mod ast;
pub mod compiler;
pub mod diagnostics;
pub mod form;
pub mod grammar;
pub mod lexer;
pub mod numbers;
pub mod parser;
pub mod roundtrip;
pub mod runtime;
pub mod text;

use vstd::prelude::*;
use crate::artifact::{decode_text, ArtifactError};
use crate::ast::{view_program, Program, ProgramV, StmtV};
use crate::compiler::encode_text;
use crate::lexer::{
    lemma_encoded_len, lemma_lex_positions_on_boundaries, lex_spec, view_lex_error, LexError,
};
use crate::grammar::{program, Failure};
use crate::parser::{failure, ParseError, Parser};
use crate::roundtrip::{lemma_artifact_round_trip, literals_ok_program};
use crate::runtime::RuntimeError;
use crate::text::on_boundary;

verus! {

/// Any error of the toolchain.
#[derive(Debug)]
pub enum Error {
    Artifact(ArtifactError),
    Lex(LexError),
    Parse(ParseError),
    Runtime(RuntimeError),
}

impl Error {
    /// The error as text, as the error it holds describes itself.
    pub fn describe(&self) -> (r: String)
        ensures
            match self {
                Error::Artifact(e) => r@ == e.message@ + " at byte "@ + crate::numbers::decimal_text(
                    e.offset as nat,
                ),
                Error::Lex(e) => r@ == e.message@ + " at byte "@ + crate::numbers::decimal_text(
                    e.span.start as nat,
                ),
                Error::Parse(e) => r@ == e.message@ + " at byte "@ + crate::numbers::decimal_text(
                    e.offset as nat,
                ),
                Error::Runtime(e) => r@ == e.message@,
            },
    {
        match self {
            Error::Artifact(e) => e.describe(),
            Error::Lex(e) => e.describe(),
            Error::Parse(e) => e.describe(),
            Error::Runtime(e) => e.describe(),
        }
    }
}

/// Whether the position at which `error` is reported is a character boundary
/// of `source`, so that the text before it can be measured in lines and
/// columns; a runtime error names no position.
pub open spec fn reported_on_boundary(source: Seq<char>, error: Error) -> bool {
    match error {
        Error::Artifact(e) => on_boundary(source, e.offset as nat),
        Error::Lex(e) => on_boundary(source, e.span.start as nat),
        Error::Parse(e) => on_boundary(source, e.offset as nat),
        Error::Runtime(_) => true,
    }
}

/// What checking `source` gives: the statements of its program, or the
/// failure of the parser on its tokens.  `None` when it does not lex.
pub open spec fn checked(source: Seq<char>) -> Option<Result<Seq<StmtV>, Failure>> {
    match lex_spec(source) {
        Ok(ts) => Some(program(ts)),
        Err(_) => None,
    }
}

/// Lexes and parses `source` into a program.
pub fn check(source: &str) -> (r: Result<Program, Error>)
    ensures
        lex_spec(source@) matches Err(x) ==> (r matches Err(Error::Lex(e)) && view_lex_error(e) == x),
        checked(source@) matches Some(c) ==> match r {
            Ok(p) => c == Ok::<Seq<StmtV>, Failure>(view_program(p).statements),
            Err(Error::Parse(e)) => c == Err::<Seq<StmtV>, Failure>(failure(e)),
            Err(_) => false,
        },
        r matches Ok(p) ==> literals_ok_program(view_program(p)),
        r matches Err(e) ==> reported_on_boundary(source@, e),
{
    let _bytes = source.as_bytes().len();
    proof {
        lemma_encoded_len(source@);
        lemma_lex_positions_on_boundaries(source@);
    }
    let parser = match Parser::from_source(source) {
        Ok(p) => p,
        Err(e) => return Err(Error::Lex(e)),
    };
    match parser.parse_program() {
        Ok(p) => Ok(p),
        Err(e) => {
            proof {
                let ts = parser.tokens_view();
                let q = choose|q: int| 0 <= q < ts.len() && ts[q].span.start == e.offset as nat;
                assert(on_boundary(source@, ts[q].span.start as nat));
            }
            Err(Error::Parse(e))
        },
    }
}

/// Checks `source` and writes the program as a `VELRA-AST-1` artifact,
/// which loads back as that same program.
pub fn compile(source: &str) -> (r: Result<String, Error>)
    ensures
        lex_spec(source@) matches Err(x) ==> (r matches Err(Error::Lex(e)) && view_lex_error(e) == x),
        checked(source@) matches Some(c) ==> match r {
            Ok(text) => c matches Ok(statements) && text@ == encode_text(ProgramV { statements })
                && decode_text(text@) == Ok::<ProgramV, (Seq<char>, nat)>(ProgramV { statements }),
            Err(Error::Parse(e)) => c == Err::<Seq<StmtV>, Failure>(failure(e)),
            Err(_) => false,
        },
        r matches Ok(text) ==> exists|p: ProgramV|
            #![auto]
            literals_ok_program(p) && text@ == encode_text(p) && decode_text(text@) == Ok::<
                ProgramV,
                (Seq<char>, nat),
            >(p),
        r matches Err(e) ==> reported_on_boundary(source@, e),
{
    match check(source) {
        Ok(program) => {
            let text = crate::compiler::encode(&program);
            proof {
                lemma_artifact_round_trip(view_program(program));
            }
            Ok(text)
        },
        Err(e) => Err(e),
    }
}

/// Loads a `VELRA-AST-1` artifact.
pub fn load_artifact(source: &str) -> (r: Result<Program, Error>)
    ensures
        r matches Ok(p) ==> decode_text(source@) == Ok::<ProgramV, (Seq<char>, nat)>(view_program(p)),
        r matches Err(e) ==> (e matches Error::Artifact(a) && decode_text(source@) == Err::<
            ProgramV,
            (Seq<char>, nat),
        >((a.message@, a.offset as nat))),
        r matches Err(e) ==> reported_on_boundary(source@, e),
{
    proof {
        crate::artifact::lemma_decode_offsets_on_boundaries(source@);
    }
    match crate::artifact::decode(source) {
        Ok(p) => Ok(p),
        Err(e) => Err(Error::Artifact(e)),
    }
}

} // verus!
