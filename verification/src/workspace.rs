use vstd::prelude::*;

verus! {

/// The code buffer once it is needed: the code held, or `example` when no
/// code is loaded.
pub open spec fn code_in(code_buf: Option<String>, example: Seq<char>) -> Seq<char> {
    match code_buf {
        Some(c) => c@,
        None => example,
    }
}

/// Puts the example program in the code buffer when it holds no code; code
/// already there is kept.
pub fn fill_code_buffer(code_buf: &mut Option<String>, example: &str)
    ensures
        *final(code_buf) matches Some(c) && c@ == code_in(*old(code_buf), example@),
        old(code_buf).is_some() ==> *final(code_buf) == *old(code_buf),
{
    if code_buf.is_none() {
        *code_buf = Some(example.to_owned());
    }
}

/// Empties the code held in the buffer; a buffer with no code stays so.
pub fn clear_code_buffer(code_buf: &mut Option<String>)
    ensures
        old(code_buf).is_some() ==> (*final(code_buf) matches Some(c) && c@ == Seq::<char>::empty()),
        old(code_buf).is_none() ==> final(code_buf).is_none(),
{
    if code_buf.is_some() {
        *code_buf = Some(String::new());
    }
}

/// Opens a file in the editor. The open file becomes its canonical path, or
/// the path as given when it has none (`canonical`); the code buffer holds
/// the file's text, and a file that could not be read as text (`content` is
/// nothing) leaves no code and is marked binary.
pub fn open_in_editor(
    path: &str,
    canonical: Option<String>,
    content: Option<String>,
    open_file: &mut Option<String>,
    code_buf: &mut Option<String>,
    binary_file: &mut bool,
)
    ensures
        *final(open_file) matches Some(f) && f@ == (match canonical {
            Some(c) => c@,
            None => path@,
        }),
        content is Some ==> *final(code_buf) == content && !*final(binary_file),
        content is None ==> final(code_buf).is_none() && *final(binary_file),
{
    *open_file = match canonical {
        Some(c) => Some(c),
        None => Some(path.to_owned()),
    };
    match content {
        Some(text) => {
            *code_buf = Some(text);
            *binary_file = false;
        },
        None => {
            *code_buf = None;
            *binary_file = true;
        },
    }
}

} // verus!
