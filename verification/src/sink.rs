//! Handing the document to the external renderer that makes a PDF of it:
//! what to call it with, and what to say of how it went.

use vstd::prelude::*;

verus! {

/// The program that renders the document.
pub const RENDERER: &'static str = "pandoc";

/// The arguments that every call of the renderer starts with: read
/// markdown, write to `output.pdf`.
pub open spec fn fixed_args() -> Seq<Seq<char>> {
    seq!["-f"@, "markdown"@, "-o"@, "output.pdf"@]
}

/// The arguments for the renderer: the input format, the output file,
/// then the caller's own flags as they are and in their order.
pub fn renderer_args(custom: &Vec<String>) -> (args: Vec<String>)
    ensures
        args.deep_view() == fixed_args() + custom.deep_view(),
{
    let mut args: Vec<String> = Vec::new();
    args.push(String::from_str("-f"));
    args.push(String::from_str("markdown"));
    args.push(String::from_str("-o"));
    args.push(String::from_str("output.pdf"));
    assert(args.deep_view() =~= fixed_args());
    let mut i: usize = 0;
    while i < custom.len()
        invariant
            i <= custom@.len(),
            args.deep_view() == fixed_args() + custom.deep_view().take(i as int),
        decreases custom@.len() - i,
    {
        let ghost before = args.deep_view();
        args.push(custom[i].clone());
        assert(args.deep_view() =~= before.push(custom@[i as int]@));
        assert(custom.deep_view().take(i + 1) =~= custom.deep_view().take(i as int).push(
            custom@[i as int]@,
        ));
        i += 1;
    }
    assert(custom.deep_view().take(custom@.len() as int) =~= custom.deep_view());
    args
}

/// What the user is told once the renderer has ended.
pub open spec fn report_text(succeeded: bool, stderr: Seq<char>) -> Seq<char> {
    if succeeded {
        "Success!"@
    } else {
        "Error: "@ + stderr
    }
}

/// What to tell the user once the renderer has ended: that it went well,
/// or what it wrote to its error stream.
pub fn sink_report(succeeded: bool, stderr: &str) -> (report: String)
    ensures
        report@ == report_text(succeeded, stderr@),
{
    if succeeded {
        String::from_str("Success!")
    } else {
        let mut report = String::from_str("Error: ");
        report.append(stderr);
        report
    }
}

} // verus!
