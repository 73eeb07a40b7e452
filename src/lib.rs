//! The logic of a set of small text tools, verified.
//!
//! At its centre is positional tail extraction (`tailr`, over the line model
//! of `lines`): the last lines or bytes of a source, or everything from a
//! given line or byte, in bounded memory, by two passes over a source that
//! can be read again or by a bounded window over one that cannot. Beside it
//! stand the rules of the other tools: counting (`wcr`), numbering (`catr`),
//! the first lines (`headr`), collapsing repeats (`uniqr`), comparing sorted
//! inputs (`commr`), cutting ranges (`cutr`), matching lines and names
//! (`grepr`, `findr`), listing (`lsr`), fortunes (`fortuner`) and the
//! calendar (`calr`). Reading files, walking directories and printing are
//! left to the caller.

pub mod calr;
pub mod catr;
pub mod commr;
pub mod cutr;
pub mod decimal;
pub mod findr;
pub mod fortuner;
pub mod grepr;
pub mod headr;
pub mod lines;
pub mod lsr;
pub mod mode_parse;
pub mod pattern;
pub mod tailr;
pub mod text;
pub mod uniqr;
pub mod wcr;
