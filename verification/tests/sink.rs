use docmerge::sink::{renderer_args, sink_report, RENDERER};

#[test]
fn renderer_args_start_with_format_and_output() {
    assert_eq!(renderer_args(&Vec::new()), vec!["-f", "markdown", "-o", "output.pdf"]);
}

#[test]
fn renderer_args_pass_custom_flags_through() {
    let custom = vec!["--toc".to_string(), "-V geometry:margin=1in".to_string()];
    assert_eq!(
        renderer_args(&custom),
        vec!["-f", "markdown", "-o", "output.pdf", "--toc", "-V geometry:margin=1in"]
    );
}

#[test]
fn sink_report_tells_how_it_went() {
    assert_eq!(sink_report(true, "ignored"), "Success!");
    assert_eq!(sink_report(false, "no such font"), "Error: no such font");
    assert_eq!(sink_report(false, ""), "Error: ");
}

#[test]
fn the_renderer_is_pandoc() {
    assert_eq!(RENDERER, "pandoc");
}
