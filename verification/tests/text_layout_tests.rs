use wbor_studio_dashboard::text_layout::{font_spans_of, SpanFitter};

/// Runs a fitter to its end, measuring each character as 10 pixels in the default font and
/// 12 in the fallback font (or with `width_of` when given). Returns what was measured and
/// what was taken.
fn run_fitter(
    spans: Vec<(bool, String)>,
    max_width: u32,
    width_of: &dyn Fn(bool, &str) -> u32,
) -> (Vec<String>, Vec<(usize, String, u32)>) {
    let mut fitter = SpanFitter::new(spans, max_width);
    let mut measured = Vec::new();
    while let Some((use_default, text)) = fitter.next_measurement() {
        let width = width_of(use_default, &text);
        measured.push(text);
        fitter.receive_width(width);
    }
    assert!(fitter.is_done());
    (measured, fitter.into_fitted())
}

fn per_char(use_default: bool, text: &str) -> u32 {
    text.chars().count() as u32 * if use_default { 10 } else { 12 }
}

fn spans(items: &[(bool, &str)]) -> Vec<(bool, String)> {
    items.iter().map(|(f, t)| (*f, t.to_string())).collect()
}

#[test]
fn text_splits_into_font_runs() {
    assert_eq!(font_spans_of("ab😀😀cd"), spans(&[(true, "ab"), (false, "😀😀"), (true, "cd")]));
    assert_eq!(font_spans_of("plain"), spans(&[(true, "plain")]));
    assert_eq!(font_spans_of("😀"), spans(&[(false, "😀")]));
    assert!(font_spans_of("").is_empty());
}

#[test]
fn font_runs_give_back_the_text() {
    let text = "x😀yz🎵🎵w";
    let runs = font_spans_of(text);
    let joined: String = runs.iter().map(|(_, t)| t.as_str()).collect();
    assert_eq!(joined, text);
    for pair in runs.windows(2) {
        assert_ne!(pair[0].0, pair[1].0);
    }
}

#[test]
fn fitting_takes_whole_runs_that_fit() {
    let (measured, fitted) = run_fitter(spans(&[(true, "ab"), (false, "😀"), (true, "cd")]), 100, &per_char);
    assert_eq!(measured, vec!["ab", "😀", "cd"]);
    assert_eq!(fitted, vec![(0, "ab".to_string(), 20), (1, "😀".to_string(), 12), (2, "cd".to_string(), 20)]);
}

#[test]
fn fitting_cuts_the_first_run_that_does_not_fit() {
    let (measured, fitted) = run_fitter(spans(&[(true, "ab"), (false, "😀"), (true, "cde")]), 45, &per_char);
    assert_eq!(measured, vec!["ab", "😀", "cde", "cd", "c"]);
    assert_eq!(fitted, vec![(0, "ab".to_string(), 20), (1, "😀".to_string(), 12), (2, "c".to_string(), 10)]);
    let total: u32 = fitted.iter().map(|f| f.2).sum();
    assert!(total <= 45);
}

#[test]
fn fitting_stops_when_nothing_of_the_run_fits() {
    // The fallback run is one character that does not fit: it is cut to nothing, which ends the fitting
    let (measured, fitted) = run_fitter(spans(&[(true, "ab"), (false, "😀"), (true, "c")]), 25, &per_char);
    assert_eq!(measured, vec!["ab", "😀"]);
    assert_eq!(fitted, vec![(0, "ab".to_string(), 20)]);
}

#[test]
fn fitting_leaves_out_runs_without_width() {
    let zero_for_fallback = |use_default: bool, text: &str| if use_default { per_char(true, text) } else { 0 };
    let (measured, fitted) = run_fitter(spans(&[(false, "😀"), (true, ""), (true, "ab")]), 100, &zero_for_fallback);
    // The empty run is not measured at all
    assert_eq!(measured, vec!["😀", "ab"]);
    assert_eq!(fitted, vec![(2, "ab".to_string(), 20)]);
}

#[test]
fn fitting_nothing() {
    let (measured, fitted) = run_fitter(Vec::new(), 100, &per_char);
    assert!(measured.is_empty());
    assert!(fitted.is_empty());
}
