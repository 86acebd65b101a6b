//! From program texts to programs that are ready to run.
use vstd::prelude::*;
use crate::error::Error;
use crate::parser::parse_glyphs;
use crate::parser::parsed;
use crate::parser::Block;
use crate::parser::Program;
use crate::text::chars_of;
use crate::text::glyphs;
use crate::text::glyphs_of;
use crate::text::mark_counter;
use crate::text::marked;
use crate::text::Glyph;

verus! {

/// The glyphs that the parser is given for a program text: the loop counter
/// is marked as a variable wherever it is named, and a blank ends the last
/// word.
pub open spec fn prepared(code: Seq<char>) -> Seq<Glyph> {
    glyphs_of(marked(code).push(' '))
}

/// The program that a program text spells.
pub open spec fn program_of(code: Seq<char>) -> Result<Map<Seq<char>, Block>, Error> {
    parsed(prepared(code))
}

/// Prepares one program text and parses it.
pub fn parse_program(code: &str) -> (r: Result<Program, Error>)
    ensures
        match r {
            Ok(p) => program_of(code@) == Ok::<Map<Seq<char>, Block>, Error>(p@),
            Err(e) => program_of(code@) == Err::<Map<Seq<char>, Block>, Error>(e),
        },
{
    let chars = chars_of(code);
    let mut code = mark_counter(&chars);
    code.push(' ');
    let text = glyphs(&code);
    parse_glyphs(&text)
}

/// Parses the program texts, of which the first `drawings` are to be run:
/// as many as there are drawings to make. Every text is parsed, and the
/// error of the first that is refused is the error of the whole. Otherwise
/// the programs of the texts that are to be run come back, in order, each
/// ready for [`crate::interpreter::execute_logo_program`].
pub fn parse_and_execute(logo_codes: &Vec<String>, drawings: usize) -> (r: Result<Vec<Program>, Error>)
    ensures
        match r {
            Ok(programs) => {
                &&& programs@.len() == if logo_codes@.len() <= drawings {
                    logo_codes@.len()
                } else {
                    drawings as nat
                }
                &&& forall|i: int|
                    0 <= i < logo_codes@.len() ==> (#[trigger] program_of(logo_codes@[i]@)) is Ok
                &&& forall|i: int|
                    0 <= i < programs@.len() ==> program_of(logo_codes@[i]@) == Ok::<
                        Map<Seq<char>, Block>,
                        Error,
                    >((#[trigger] programs@[i])@)
            },
            Err(e) => exists|i: int|
                {
                    &&& 0 <= i < logo_codes@.len()
                    &&& #[trigger] program_of(logo_codes@[i]@) == Err::<
                        Map<Seq<char>, Block>,
                        Error,
                    >(e)
                    &&& forall|j: int| 0 <= j < i ==> (#[trigger] program_of(logo_codes@[j]@)) is Ok
                },
        },
{
    let mut logo_parsed_codes: Vec<Program> = Vec::new();
    let mut i: usize = 0;
    while i < logo_codes.len()
        invariant
            i <= logo_codes.len(),
            logo_parsed_codes@.len() == if i <= drawings {
                i
            } else {
                drawings
            },
            forall|k: int| 0 <= k < i ==> (#[trigger] program_of(logo_codes@[k]@)) is Ok,
            forall|k: int|
                0 <= k < logo_parsed_codes@.len() ==> program_of(logo_codes@[k]@) == Ok::<
                    Map<Seq<char>, Block>,
                    Error,
                >((#[trigger] logo_parsed_codes@[k])@),
        decreases logo_codes.len() - i,
    {
        match parse_program(logo_codes[i].as_str()) {
            Ok(program) => {
                if i < drawings {
                    logo_parsed_codes.push(program);
                }
            },
            Err(e) => {
                assert(program_of(logo_codes@[i as int]@) == Err::<Map<Seq<char>, Block>, Error>(e));
                return Err(e);
            },
        }
        i = i + 1;
    }
    Ok(logo_parsed_codes)
}

} // verus!
