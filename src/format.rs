use vstd::prelude::*;

verus! {

/// How a patch is written out.
#[derive(Clone, Copy, Debug, PartialEq, Eq, Structural)]
pub enum OutputFormat {
    /// The compact binary parameter format.
    Binary,
    /// The human-editable XML text format.
    Text,
}

fn str_equals(s: &str, lit: &str) -> (r: bool)
    ensures
        r == (s@ == lit@),
{
    let n = s.unicode_len();
    if n != lit.unicode_len() {
        return false;
    }
    let mut i: usize = 0;
    while i < n
        invariant
            i <= n,
            n == s@.len(),
            n == lit@.len(),
            forall|j: int| 0 <= j < i ==> s@[j] == lit@[j],
        decreases n - i,
    {
        if s.get_char(i) != lit.get_char(i) {
            return false;
        }
        i = i + 1;
    }
    assert(s@ =~= lit@);
    true
}

/// Reads the name of an output format: `"bin"` or `"xml"`; any other name is
/// refused with `None`.
pub fn parse_output_format(name: &str) -> (r: Option<OutputFormat>)
    ensures
        r == Some(OutputFormat::Binary) <==> name@ == "bin"@,
        r == Some(OutputFormat::Text) <==> name@ == "xml"@,
        r is None <==> name@ != "bin"@ && name@ != "xml"@,
{
    proof {
        reveal_strlit("bin");
        reveal_strlit("xml");
        assert("xml"@[0] != "bin"@[0]);
    }
    if str_equals(name, "xml") {
        Some(OutputFormat::Text)
    } else if str_equals(name, "bin") {
        Some(OutputFormat::Binary)
    } else {
        None
    }
}

} // verus!
