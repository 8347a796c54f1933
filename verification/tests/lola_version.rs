use lola_parser::lola_version::LolaVersionAnalysis;
use lola_parser::parse::parse;
use lola_parser::reporting::Handler;
use lola_parser::LanguageSpec;

#[derive(Debug, Clone, Copy)]
enum StreamIndex {
    Out(usize),
    In(usize),
    Trig(usize),
}

/// Parses the content, runs the analysis, and check expected number of errors and version
fn check_version(
    content: &str,
    expected_errors: usize,
    expected_version: Option<LanguageSpec>,
    expected_versions: Vec<(StreamIndex, LanguageSpec)>,
) {
    let mut ast = parse(content).unwrap_or_else(|e| panic!("{:?}", e));
    ast.assign_ids();
    let handler = Handler::new();
    let mut version_analyzer = LolaVersionAnalysis::new(&handler);
    let version = version_analyzer.analyse(&ast);
    assert_eq!(expected_errors, handler.emitted_errors());
    assert_eq!(expected_version, version);
    for (index, version) in expected_versions {
        let node_id = match index {
            StreamIndex::In(i) => ast.inputs[i].id,
            StreamIndex::Out(i) => ast.outputs[i].id,
            StreamIndex::Trig(i) => ast.trigger[i].id,
        };
        let actual_version = version_analyzer
            .result
            .get(&node_id)
            .unwrap_or_else(|| panic!("There is no version for this NodeId in the result",));
        assert_eq!(
            version, *actual_version,
            "The expected version and the actual version do not match."
        );
    }
}

#[test]
fn parameterized_output_stream_causes_lola2() {
    check_version(
        "output test<ab: Int8, c: Int8>: Int8 := 3",
        0,
        Some(LanguageSpec::Lola2),
        vec![(StreamIndex::Out(0), LanguageSpec::Lola2)],
    )
}

#[test]
fn time_offset_causes_rtlola() {
    check_version(
        "output test: Int8 := stream[3s]",
        0,
        Some(LanguageSpec::RTLola),
        vec![(StreamIndex::Out(0), LanguageSpec::RTLola)],
    )
}

#[test]
fn simple_trigger_causes_lola() {
    check_version(
        "trigger test := false",
        0,
        Some(LanguageSpec::Classic),
        vec![(StreamIndex::Trig(0), LanguageSpec::Classic)],
    )
}

#[test]
fn time_offset_in_trigger_causes_rtlola() {
    check_version(
        "trigger test := stream[3s]",
        0,
        Some(LanguageSpec::RTLola),
        vec![(StreamIndex::Trig(0), LanguageSpec::RTLola)],
    )
}

#[test]
fn parameterized_input_stream_causes_lola2() {
    check_version(
        "input test<ab: Int8, c: Int8> : Int8",
        0,
        Some(LanguageSpec::Lola2),
        vec![(StreamIndex::In(0), LanguageSpec::Lola2)],
    )
}

#[test]
fn version_is_the_greatest_of_the_streams() {
    check_version(
        "input a: Int\ninput b<p: Int>: Int\noutput c: Int := a + 1\noutput d: Int := a[2s]\ntrigger c > 3",
        0,
        Some(LanguageSpec::RTLola),
        vec![
            (StreamIndex::In(0), LanguageSpec::Classic),
            (StreamIndex::In(1), LanguageSpec::Lola2),
            (StreamIndex::Out(0), LanguageSpec::Classic),
            (StreamIndex::Out(1), LanguageSpec::RTLola),
            (StreamIndex::Trig(0), LanguageSpec::Classic),
        ],
    );
    check_version(
        "input a: Int\noutput c: Int := a + 1\ntrigger c > 3",
        0,
        Some(LanguageSpec::Classic),
        vec![
            (StreamIndex::In(0), LanguageSpec::Classic),
            (StreamIndex::Out(0), LanguageSpec::Classic),
            (StreamIndex::Trig(0), LanguageSpec::Classic),
        ],
    );
    check_version(
        "input a: Int\noutput c<p: Int>: Int := a + 1\ntrigger c > 3",
        0,
        Some(LanguageSpec::Lola2),
        vec![(StreamIndex::Out(0), LanguageSpec::Lola2)],
    );
}

#[test]
fn real_time_offset_is_found_at_any_depth() {
    let deep = [
        "output o: Int := (1 + if a then -s[3s] else 2) * 4",
        "output o: Int := sqrt(nroot(1, s[1h, sum]))",
        "output o: Int := (1, (2, s[1d]))",
        "output o: Int := t[s[2min]] ? 0",
        "output o: Int := t[0] ? s[2w]",
        "output o: Int := t(s[1ns])[0]",
        "output o<p: Int>: Int := s[p a]",
    ];
    for content in deep.iter() {
        check_version(
            content,
            0,
            Some(LanguageSpec::RTLola),
            vec![(StreamIndex::Out(0), LanguageSpec::RTLola)],
        );
    }
    check_version(
        "output o: Int := (1 + if a then -s[3] else 2) * 4",
        0,
        Some(LanguageSpec::Classic),
        vec![(StreamIndex::Out(0), LanguageSpec::Classic)],
    );
}

#[test]
fn empty_specification_is_classic() {
    check_version("", 0, Some(LanguageSpec::Classic), vec![]);
}

#[test]
fn errors_during_the_first_pass_leave_no_version() {
    let mut ast = parse("output test: Int8 := stream[3s]").unwrap();
    ast.assign_ids();
    let handler = Handler::new();
    let mut analysis = LolaVersionAnalysis::new(&handler);
    analysis.analyse_streams(&ast);
    assert_eq!(analysis.conclude(&ast, 0, 1), None);
    assert_eq!(analysis.conclude(&ast, 2, 2), Some(LanguageSpec::RTLola));
}

#[test]
fn handler_counts_errors() {
    let mut handler = Handler::new();
    assert_eq!(handler.emitted_errors(), 0);
    handler.error(lola_parser::Span::new(0, 1), "first");
    handler.error(lola_parser::Span::new(2, 3), "second");
    assert_eq!(handler.emitted_errors(), 2);
}

#[test]
fn reasons_name_the_first_stream_that_rules_a_version_out() {
    let mut ast = parse(
        "input a<p: Int>: Int\noutput first: Int := a[1s]\noutput second<q: Int>: Int := 1\ntrigger t := first[2s] > 1",
    )
    .unwrap();
    ast.assign_ids();
    let handler = Handler::new();
    let mut analysis = LolaVersionAnalysis::new(&handler);
    analysis.analyse_streams(&ast);
    let reasons = analysis.rule_out_versions(&ast);
    let classic = reasons.cannot_be_classic.unwrap();
    assert_eq!(classic.0, ast.inputs[0].name.span);
    assert_eq!(classic.1, "Parameterized input stream");
    let lola2 = reasons.cannot_be_lola2.unwrap();
    assert_eq!(lola2.0, ast.outputs[0].name.span);
    assert_eq!(
        lola2.1,
        "Lola2 is not possible due to first being a RTLola stream."
    );
}

#[test]
fn reasons_of_outputs_and_triggers() {
    let mut ast = parse("output second<q: Int>: Int := 1\ntrigger second[1s] > 1").unwrap();
    ast.assign_ids();
    let handler = Handler::new();
    let mut analysis = LolaVersionAnalysis::new(&handler);
    analysis.analyse_streams(&ast);
    let reasons = analysis.rule_out_versions(&ast);
    let classic = reasons.cannot_be_classic.unwrap();
    assert_eq!(classic.0, ast.outputs[0].name.span);
    assert_eq!(
        classic.1,
        "Classic Lola is not possible due to second being a Lola2 stream."
    );
    let lola2 = reasons.cannot_be_lola2.unwrap();
    // The trigger has no name: the finding points to all of it.
    assert_eq!(lola2.0, ast.trigger[0].span);
    assert_eq!(
        lola2.1,
        "Lola2 is not possible due to this being a RTLola trigger."
    );

    let mut ast = parse("output o: Int := 1\ntrigger t := o[1s] > 1").unwrap();
    ast.assign_ids();
    let mut analysis = LolaVersionAnalysis::new(&handler);
    analysis.analyse_streams(&ast);
    let reasons = analysis.rule_out_versions(&ast);
    let classic = reasons.cannot_be_classic.unwrap();
    assert_eq!(classic.0, ast.trigger[0].name.unwrap().span);
    assert_eq!(
        classic.1,
        "Classic Lola is not possible due to this being a RTLola trigger."
    );

    let mut ast = parse("output o: Int := o[1s]").unwrap();
    ast.assign_ids();
    let mut analysis = LolaVersionAnalysis::new(&handler);
    analysis.analyse_streams(&ast);
    let reasons = analysis.rule_out_versions(&ast);
    assert_eq!(
        reasons.cannot_be_classic.unwrap().1,
        "Classic Lola is not possible due to o being a RTLola stream."
    );
    assert!(analysis.rule_out_versions(&parse("").unwrap()).cannot_be_classic.is_none());
}

#[test]
fn identifiers_count_up_through_inputs_outputs_and_triggers() {
    let mut ast = parse(
        "trigger a > 1\noutput o: Int := a\ninput a: Int, b: Int\noutput p: Int := b\nconstant c: Int := 1",
    )
    .unwrap();
    assert_eq!(ast.inputs[1].id, 0);
    ast.assign_ids();
    assert_eq!(ast.inputs[0].id, 0);
    assert_eq!(ast.inputs[1].id, 1);
    assert_eq!(ast.outputs[0].id, 2);
    assert_eq!(ast.outputs[1].id, 3);
    assert_eq!(ast.trigger[0].id, 4);
    assert_eq!(ast.constants.len(), 1);
    assert_eq!(ast.symbols.get_string(ast.outputs[1].name.name), "p");
}

#[test]
fn streams_that_share_an_identifier_share_the_entry() {
    // Without identifiers of their own, a later stream replaces the entry of
    // an earlier one.
    let ast = parse("output o: Int := 1\noutput p<q: Int>: Int := 1").unwrap();
    let handler = Handler::new();
    let mut analysis = LolaVersionAnalysis::new(&handler);
    analysis.analyse_streams(&ast);
    assert_eq!(analysis.result.len(), 1);
    assert_eq!(analysis.result.get(&0), Some(&LanguageSpec::Lola2));
}

#[test]
fn each_stream_is_entered_with_its_own_version() {
    let mut ast = parse(
        "input a: Int\ninput b<p: Int>: Int\noutput c<q: Int>: Int := a\noutput d<q: Int>: Int := a[1s]\noutput e: Int := a\ntrigger a[1h] > 0",
    )
    .unwrap();
    ast.assign_ids();
    let handler = Handler::new();
    let mut analysis = LolaVersionAnalysis::new(&handler);
    analysis.analyse_input(&ast.inputs[0]);
    assert_eq!(analysis.result.get(&0), Some(&LanguageSpec::Classic));
    analysis.analyse_input(&ast.inputs[1]);
    assert_eq!(analysis.result.get(&1), Some(&LanguageSpec::Lola2));
    analysis.analyse_output(&ast.outputs[0]);
    assert_eq!(analysis.result.get(&2), Some(&LanguageSpec::Lola2));
    analysis.analyse_output(&ast.outputs[1]);
    assert_eq!(analysis.result.get(&3), Some(&LanguageSpec::RTLola));
    analysis.analyse_output(&ast.outputs[2]);
    assert_eq!(analysis.result.get(&4), Some(&LanguageSpec::Classic));
    analysis.analyse_trigger(&ast.trigger[0]);
    assert_eq!(analysis.result.get(&5), Some(&LanguageSpec::RTLola));
    assert_eq!(analysis.result.len(), 6);
}
