//! The file names that the tool reads and writes: every name ends in `.pdf`, and a compressed
//! copy is named after its source.

use vstd::prelude::*;
use vstd::string::*;

verus! {

/// The name ends in `.pdf`.
pub open spec fn ends_in_pdf(name: Seq<char>) -> bool {
    name.len() >= 4 && name.subrange(name.len() - 4, name.len() as int) == ".pdf"@
}

/// The name with `.pdf` at its end: added where it is missing.
pub open spec fn pdf_name(name: Seq<char>) -> Seq<char> {
    if ends_in_pdf(name) {
        name
    } else {
        name + ".pdf"@
    }
}

/// The name of the compressed copy of a file: `_compressed` goes between the name and its
/// ending.
pub open spec fn compressed_pdf_name(name: Seq<char>) -> Seq<char> {
    pdf_name(name).subrange(0, pdf_name(name).len() - 4) + "_compressed.pdf"@
}

/// The name of the file that a merge writes: the name asked for, or `output.pdf` where none
/// was.
pub open spec fn output_pdf_name(name: Option<Seq<char>>) -> Seq<char> {
    match name {
        Some(name) => pdf_name(name),
        None => "output.pdf"@,
    }
}

/// Tells whether a name ends in `.pdf`.
pub fn has_pdf_extension(name: &str) -> (ends: bool)
    ensures
        ends == ends_in_pdf(name@),
{
    proof {
        reveal_strlit(".pdf");
    }
    let length = name.unicode_len();
    if length < 4 {
        return false;
    }
    let ends = name.get_char(length - 4) == '.' && name.get_char(length - 3) == 'p'
        && name.get_char(length - 2) == 'd' && name.get_char(length - 1) == 'f';
    proof {
        let tail = name@.subrange(length - 4, length as int);
        if ends {
            assert(tail =~= ".pdf"@);
        } else {
            assert(tail[0] == name@[length - 4]);
            assert(tail[1] == name@[length - 3]);
            assert(tail[2] == name@[length - 2]);
            assert(tail[3] == name@[length - 1]);
        }
    }
    ends
}

/// Gives a name its ending `.pdf`, unless it has it.
pub fn with_pdf_extension(name: &str) -> (full: String)
    ensures
        full@ == pdf_name(name@),
        ends_in_pdf(full@),
{
    if has_pdf_extension(name) {
        String::from_str(name)
    } else {
        let full = String::from_str(name).concat(".pdf");
        proof {
            reveal_strlit(".pdf");
            assert(full@.subrange(full@.len() - 4, full@.len() as int) =~= ".pdf"@);
        }
        full
    }
}

/// Names the compressed copy of a file: `report` and `report.pdf` both give
/// `report_compressed.pdf`.
pub fn compressed_name(name: &str) -> (copy: String)
    ensures
        copy@ == compressed_pdf_name(name@),
{
    let full = with_pdf_extension(name);
    let length = full.as_str().unicode_len();
    let stem = full.as_str().substring_char(0, length - 4);
    String::from_str(stem).concat("_compressed.pdf")
}

/// Names the file that a merge writes.
pub fn output_name(name: Option<&str>) -> (full: String)
    ensures
        full@ == output_pdf_name(
            match name {
                Some(name) => Some(name@),
                None => None,
            },
        ),
{
    match name {
        Some(name) => with_pdf_extension(name),
        None => String::from_str("output.pdf"),
    }
}

} // verus!
