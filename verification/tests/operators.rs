use tlang::{Array, Level, Number, Value};

fn text(s: &str) -> Value {
    Value::Text(s.to_string())
}

fn num(i: i64) -> Value {
    Value::Number(Number::from_int(i))
}

fn line_array(lines: &[&str]) -> Value {
    Value::Array(Array::from((lines.iter().map(|s| text(s)).collect(), Level::Line)))
}

fn word_array(words: &[&str]) -> Value {
    Value::Array(Array::from((words.iter().map(|s| text(s)).collect(), Level::Word)))
}

fn run_programme(prog: &str, input: Value) -> Result<Value, tlang::Error> {
    let p = tlang::parse_programme(prog).map_err(tlang::Error::runtime)?;
    let ops = tlang::compile(&p)?;
    let mut ctx = tlang::Context::new(input);
    tlang::run(&ops, &mut ctx)?;
    Ok(ctx.into_value())
}

fn as_array(v: Value) -> Array {
    match v {
        Value::Array(a) => a,
        other => panic!("expected array, got {:?}", other),
    }
}

#[test]
fn scenario_slice_selects_middle() {
    let input = line_array(&["a", "b", "c", "d"]);
    let result = run_programme("1:3", input).unwrap();
    assert_eq!(result, line_array(&["b", "c"]));
}

#[test]
fn scenario_dedupe_with_counts() {
    let input = line_array(&["a", "b", "a", "a", "b"]);
    let result = run_programme("d", input).unwrap();
    let expected = Value::Array(Array::from((
        vec![
            Value::Array(Array::from((vec![num(3), text("a")], Level::Word))),
            Value::Array(Array::from((vec![num(2), text("b")], Level::Word))),
        ],
        Level::Line,
    )));
    assert_eq!(result, expected);
}

#[test]
fn scenario_group_by_first_column() {
    let row = |k: &str, n: i64| Value::Array(Array::from((vec![text(k), num(n)], Level::Line)));
    let input = Value::Array(Array::from((
        vec![row("a", 1), row("b", 2), row("a", 3)],
        Level::Line,
    )));
    let result = run_programme("g0", input).unwrap();
    let group = |k: &str, members: Vec<Value>| {
        Value::Array(Array::from((
            vec![text(k), Value::Array(Array::from((members, Level::Line)))],
            Level::Line,
        )))
    };
    let expected = Value::Array(Array::from((
        vec![
            group("a", vec![row("a", 1), row("a", 3)]),
            group("b", vec![row("b", 2)]),
        ],
        Level::Line,
    )));
    assert_eq!(result, expected);
}

#[test]
fn scenario_columnate_pads_all_but_last() {
    let row = |cells: &[&str]| {
        Value::Array(Array::from((cells.iter().map(|s| text(s)).collect(), Level::Line)))
    };
    let input = Value::Array(Array::from((
        vec![row(&["name", "age"]), row(&["alice", "30"]), row(&["bob", "25"])],
        Level::Line,
    )));
    let result = run_programme("c", input).unwrap();
    let out_row = |cells: &[&str]| {
        Value::Array(Array::from((cells.iter().map(|s| text(s)).collect(), Level::Word)))
    };
    let expected = Value::Array(Array::from((
        vec![out_row(&["name ", "age"]), out_row(&["alice", "30"]), out_row(&["bob  ", "25"])],
        Level::Line,
    )));
    assert_eq!(result, expected);
}

#[test]
fn scenario_filter_keeps_matching() {
    let input = line_array(&["apple", "banana", "apricot"]);
    let result = run_programme("/^a/", input).unwrap();
    assert_eq!(result, line_array(&["apple", "apricot"]));
}

#[test]
fn split_line_into_words() {
    let result = run_programme("s", text("hello world")).unwrap();
    assert_eq!(result, word_array(&["hello", "world"]));
}

#[test]
fn split_array_of_lines() {
    let input = line_array(&["hello world", "foo bar baz"]);
    let result = as_array(run_programme("s", input).unwrap());
    assert_eq!(result.len(), 2);
    assert_eq!(result.elements[0], word_array(&["hello", "world"]));
    assert_eq!(result.elements[1], word_array(&["foo", "bar", "baz"]));
}

#[test]
fn split_collapses_whitespace_runs() {
    let result = run_programme("s", text("  a   b  ")).unwrap();
    assert_eq!(result, word_array(&["a", "b"]));
}

#[test]
fn split_delim_comma() {
    let result = run_programme("S,", text("a,b,c")).unwrap();
    assert_eq!(result, word_array(&["a", "b", "c"]));
}

#[test]
fn split_delim_multi_char() {
    let result = run_programme("S\"::\"", text("a::b::c")).unwrap();
    assert_eq!(result, word_array(&["a", "b", "c"]));
}

#[test]
fn split_delim_no_match() {
    let result = run_programme("S,", text("hello world")).unwrap();
    assert_eq!(result, word_array(&["hello world"]));
}

#[test]
fn split_delim_empty_parts() {
    let result = run_programme("S,", text("a,,b")).unwrap();
    assert_eq!(result, word_array(&["a", "", "b"]));
}

#[test]
fn split_delim_array_of_strings() {
    let input = line_array(&["a,b", "c,d,e"]);
    let result = as_array(run_programme("S,", input).unwrap());
    assert_eq!(result.len(), 2);
    assert_eq!(result.elements[0], word_array(&["a", "b"]));
    assert_eq!(result.elements[1], word_array(&["c", "d", "e"]));
}

#[test]
fn join_words_with_space() {
    let result = run_programme("j", word_array(&["a", "b", "c"])).unwrap();
    assert_eq!(result, text("a b c"));
}

#[test]
fn join_lines_with_newline() {
    let result = run_programme("j", line_array(&["a", "b"])).unwrap();
    assert_eq!(result, text("a\nb"));
}

#[test]
fn join_flattens_nested_arrays() {
    let input = Value::Array(Array::from((
        vec![word_array(&["a", "b"]), word_array(&["c"])],
        Level::Line,
    )));
    let result = run_programme("j", input).unwrap();
    assert_eq!(result, word_array(&["a", "b", "c"]));
}

#[test]
fn split_join_round_trip_collapses_whitespace() {
    let result = run_programme("sj", text("a  b   c")).unwrap();
    assert_eq!(result, text("a b c"));
}

#[test]
fn split_join_round_trip_keeps_single_spaced_text() {
    let result = run_programme("sj", text("a b c")).unwrap();
    assert_eq!(result, text("a b c"));
}

#[test]
fn join_delim_with_comma() {
    let result = run_programme("J,", word_array(&["a", "b", "c"])).unwrap();
    assert_eq!(result, text("a,b,c"));
}

#[test]
fn join_delim_renders_nested_arrays() {
    let input = Value::Array(Array::from((
        vec![word_array(&["a", "b"]), text("c")],
        Level::Line,
    )));
    let result = run_programme("J,", input).unwrap();
    assert_eq!(result, text("a b,c"));
}

#[test]
fn uppercase_all() {
    let result = run_programme("u", line_array(&["abc", "Def"])).unwrap();
    assert_eq!(result, line_array(&["ABC", "DEF"]));
}

#[test]
fn lowercase_all() {
    let result = run_programme("l", line_array(&["ABC", "Def"])).unwrap();
    assert_eq!(result, line_array(&["abc", "def"]));
}

#[test]
fn uppercase_selected_only() {
    let result = run_programme("U0", line_array(&["abc", "def"])).unwrap();
    assert_eq!(result, line_array(&["ABC", "def"]));
}

#[test]
fn lowercase_selected_only() {
    let result = run_programme("L1", line_array(&["ABC", "DEF"])).unwrap();
    assert_eq!(result, line_array(&["ABC", "def"]));
}

#[test]
fn trim_whitespace() {
    let result = run_programme("t", line_array(&["  a  ", "\tb\t"])).unwrap();
    assert_eq!(result, line_array(&["a", "b"]));
}

#[test]
fn trim_selected_only() {
    let result = run_programme("T0", line_array(&["  a  ", "  b  "])).unwrap();
    assert_eq!(result, line_array(&["a", "  b  "]));
}

#[test]
fn to_number_selected_only() {
    let result = run_programme("N1", line_array(&["1", "2"])).unwrap();
    let expected = Value::Array(Array::from((vec![text("1"), num(2)], Level::Line)));
    assert_eq!(result, expected);
}

#[test]
fn delete_empty_drops_blanks() {
    let result = run_programme("x", line_array(&["a", "", "b", ""])).unwrap();
    assert_eq!(result, line_array(&["a", "b"]));
}

#[test]
fn delete_empty_keeps_zero() {
    let input = Value::Array(Array::from((vec![num(0), text("")], Level::Line)));
    let result = run_programme("x", input).unwrap();
    assert_eq!(result, Value::Array(Array::from((vec![num(0)], Level::Line))));
}

#[test]
fn flatten_one_level() {
    let input = Value::Array(Array::from((
        vec![word_array(&["a", "b"]), word_array(&["c"]), text("d")],
        Level::Line,
    )));
    let result = run_programme("f", input).unwrap();
    assert_eq!(result, line_array(&["a", "b", "c", "d"]));
}

#[test]
fn sum_numbers_and_numeric_text() {
    let input = Value::Array(Array::from((vec![num(1), text("2"), num(3)], Level::Line)));
    let result = run_programme("+", input).unwrap();
    assert_eq!(result, num(6));
}

#[test]
fn sum_recurses_into_nested_arrays() {
    let input = Value::Array(Array::from((
        vec![
            Value::Array(Array::from((vec![num(1), num(2)], Level::Word))),
            num(3),
        ],
        Level::Line,
    )));
    let result = run_programme("+", input).unwrap();
    assert_eq!(result, num(6));
}

#[test]
fn sum_ignores_non_numeric_text() {
    let input = line_array(&["a", "2", "b"]);
    let result = run_programme("+", input).unwrap();
    assert_eq!(result, num(2));
}

#[test]
fn count_array_elements() {
    let result = run_programme("#", line_array(&["a", "b", "c"])).unwrap();
    assert_eq!(result, num(3));
}

#[test]
fn count_text_characters() {
    let result = run_programme("#", text("hello")).unwrap();
    assert_eq!(result, num(5));
}

#[test]
fn count_number_is_zero() {
    let result = run_programme("#", num(42)).unwrap();
    assert_eq!(result, num(0));
}

#[test]
fn sort_ascending_text() {
    let result = run_programme("O", line_array(&["c", "a", "b"])).unwrap();
    assert_eq!(result, line_array(&["a", "b", "c"]));
}

#[test]
fn sort_descending_text() {
    let result = run_programme("o", line_array(&["c", "a", "b"])).unwrap();
    assert_eq!(result, line_array(&["c", "b", "a"]));
}

#[test]
fn sort_numbers_before_text() {
    let input = Value::Array(Array::from((vec![text("a"), num(2), num(1)], Level::Line)));
    let result = run_programme("O", input).unwrap();
    let expected = Value::Array(Array::from((vec![num(1), num(2), text("a")], Level::Line)));
    assert_eq!(result, expected);
}

#[test]
fn select_single_index() {
    let result = run_programme("1", line_array(&["a", "b", "c"])).unwrap();
    assert_eq!(result, text("b"));
}

#[test]
fn select_negative_index() {
    let result = run_programme("-1", line_array(&["a", "b", "c"])).unwrap();
    assert_eq!(result, text("c"));
}

#[test]
fn select_out_of_range_single_index_errors() {
    let result = run_programme("9", line_array(&["a", "b"]));
    assert!(result.is_err());
}

#[test]
fn select_from_number_errors() {
    let result = run_programme("0", num(5));
    assert!(result.is_err());
}

#[test]
fn select_multiple_indices() {
    let result = run_programme("0,2", line_array(&["a", "b", "c"])).unwrap();
    assert_eq!(result, line_array(&["a", "c"]));
}

#[test]
fn select_duplicate_indices_copy() {
    let result = run_programme("0,0", line_array(&["a", "b"])).unwrap();
    assert_eq!(result, line_array(&["a", "a"]));
}

#[test]
fn select_reverse() {
    let result = run_programme("::-1", line_array(&["a", "b", "c"])).unwrap();
    assert_eq!(result, line_array(&["c", "b", "a"]));
}

#[test]
fn select_stride() {
    let result = run_programme("::2", line_array(&["a", "b", "c", "d", "e"])).unwrap();
    assert_eq!(result, line_array(&["a", "c", "e"]));
}

#[test]
fn select_out_of_range_slice_is_clipped() {
    let result = run_programme("1:100", line_array(&["a", "b", "c"])).unwrap();
    assert_eq!(result, line_array(&["b", "c"]));
}

#[test]
fn select_string_single_char() {
    let result = run_programme("1", text("abc")).unwrap();
    assert_eq!(result, text("b"));
}

#[test]
fn select_string_negative_index() {
    let result = run_programme("-1", text("abc")).unwrap();
    assert_eq!(result, text("c"));
}

#[test]
fn select_string_slice() {
    let result = run_programme("1:3", text("abcd")).unwrap();
    assert_eq!(result, text("bc"));
}

#[test]
fn select_string_reverse() {
    let result = run_programme("::-1", text("abc")).unwrap();
    assert_eq!(result, text("cba"));
}

#[test]
fn dedupe_ties_keep_first_occurrence_order() {
    let input = line_array(&["b", "a", "b", "a"]);
    let result = run_programme("d", input).unwrap();
    let expected = Value::Array(Array::from((
        vec![
            Value::Array(Array::from((vec![num(2), text("b")], Level::Word))),
            Value::Array(Array::from((vec![num(2), text("a")], Level::Word))),
        ],
        Level::Line,
    )));
    assert_eq!(result, expected);
}

#[test]
fn dedupe_counts_sum_to_input_length() {
    let input = line_array(&["x", "y", "x", "z", "x", "y"]);
    let result = as_array(run_programme("d", input).unwrap());
    let mut total: i64 = 0;
    for row in &result.elements {
        if let Value::Array(pair) = row {
            if let Value::Number(n) = &pair.elements[0] {
                assert_eq!(n.scale(), 0);
                total += n.mantissa();
            } else {
                panic!("expected count");
            }
        } else {
            panic!("expected row");
        }
    }
    assert_eq!(total, 6);
}

#[test]
fn group_by_preserves_total_count() {
    let row = |k: &str, n: i64| Value::Array(Array::from((vec![text(k), num(n)], Level::Line)));
    let input = Value::Array(Array::from((
        vec![row("a", 1), row("b", 2), row("a", 3), row("c", 4), row("b", 5)],
        Level::Line,
    )));
    let result = as_array(run_programme("g0", input).unwrap());
    let mut total = 0;
    for g in &result.elements {
        if let Value::Array(pair) = g {
            if let Value::Array(members) = &pair.elements[1] {
                total += members.len();
            } else {
                panic!("expected members");
            }
        } else {
            panic!("expected group");
        }
    }
    assert_eq!(total, 5);
}

#[test]
fn group_by_scalar_elements_key_by_value() {
    let input = line_array(&["a", "b", "a"]);
    let result = as_array(run_programme("g0", input).unwrap());
    assert_eq!(result.len(), 2);
}

#[test]
fn partition_array_single_index() {
    let input = line_array(&["a", "b", "c", "d", "e"]);
    let result = as_array(run_programme("p2", input).unwrap());
    assert_eq!(result.len(), 2);
    assert_eq!(result.elements[0], line_array(&["a", "b"]));
    assert_eq!(result.elements[1], line_array(&["c", "d", "e"]));
}

#[test]
fn partition_array_multiple_indices() {
    let input = line_array(&["a", "b", "c", "d", "e"]);
    let result = as_array(run_programme("p1,3", input).unwrap());
    assert_eq!(result.len(), 3);
    assert_eq!(result.elements[0], line_array(&["a"]));
    assert_eq!(result.elements[1], line_array(&["b", "c"]));
    assert_eq!(result.elements[2], line_array(&["d", "e"]));
}

#[test]
fn partition_array_chunking() {
    let input = line_array(&["a", "b", "c", "d", "e", "f"]);
    let result = as_array(run_programme("p::2", input).unwrap());
    assert_eq!(result.len(), 3);
    assert_eq!(result.elements[0], line_array(&["a", "b"]));
    assert_eq!(result.elements[1], line_array(&["c", "d"]));
    assert_eq!(result.elements[2], line_array(&["e", "f"]));
}

#[test]
fn partition_array_no_split() {
    let input = line_array(&["a", "b", "c"]);
    let result = as_array(run_programme("p0", input).unwrap());
    assert_eq!(result.len(), 1);
    assert_eq!(result.elements[0], line_array(&["a", "b", "c"]));
}

#[test]
fn partition_string_single_index() {
    let result = as_array(run_programme("p2", text("hello")).unwrap());
    assert_eq!(result.len(), 2);
    assert_eq!(result.elements[0], text("he"));
    assert_eq!(result.elements[1], text("llo"));
}

#[test]
fn partition_string_multiple_indices() {
    let result = as_array(run_programme("p1,3", text("hello")).unwrap());
    assert_eq!(result.len(), 3);
    assert_eq!(result.elements[0], text("h"));
    assert_eq!(result.elements[1], text("el"));
    assert_eq!(result.elements[2], text("lo"));
}

#[test]
fn partition_number_is_identity() {
    let result = run_programme("p2", num(42)).unwrap();
    assert_eq!(result, num(42));
}

#[test]
fn partition_negative_index() {
    let input = line_array(&["a", "b", "c", "d", "e"]);
    let result = as_array(run_programme("p-2", input).unwrap());
    assert_eq!(result.len(), 2);
    assert_eq!(result.elements[0], line_array(&["a", "b", "c"]));
    assert_eq!(result.elements[1], line_array(&["d", "e"]));
}

#[test]
fn filter_negated_drops_matching() {
    let input = line_array(&["apple", "banana", "apricot"]);
    let result = run_programme("!/^a/", input).unwrap();
    assert_eq!(result, line_array(&["banana"]));
}

#[test]
fn filter_matches_rendered_numbers() {
    let input = Value::Array(Array::from((vec![num(10), num(25), num(31)], Level::Line)));
    let result = run_programme("/5/", input).unwrap();
    assert_eq!(result, Value::Array(Array::from((vec![num(25)], Level::Line))));
}

#[test]
fn replace_applies_globally() {
    let input = line_array(&["foo bar foo", "none"]);
    let result = run_programme("r/foo/qux/", input).unwrap();
    assert_eq!(result, line_array(&["qux bar qux", "none"]));
}

#[test]
fn replace_with_capture_group() {
    let input = line_array(&["ab"]);
    let result = run_programme("r/(a)(b)/$2$1/", input).unwrap();
    assert_eq!(result, line_array(&["ba"]));
}

#[test]
fn replace_only_in_selected() {
    let input = line_array(&["aa", "aa"]);
    let result = run_programme("r0/a/b/", input).unwrap();
    assert_eq!(result, line_array(&["bb", "aa"]));
}

#[test]
fn match_extracts_all_matches() {
    let input = line_array(&["a1 b2", "c3"]);
    let result = as_array(run_programme("m/[0-9]/", input).unwrap());
    assert_eq!(result.elements[0], word_array(&["1", "2"]));
    assert_eq!(result.elements[1], word_array(&["3"]));
}

#[test]
fn match_yields_empty_array_without_matches() {
    let input = line_array(&["abc"]);
    let result = as_array(run_programme("m/[0-9]/", input).unwrap());
    assert_eq!(result.elements[0], word_array(&[]));
}

#[test]
fn invalid_regex_fails_at_compile_time() {
    let p = tlang::parse_programme("/[invalid/").unwrap();
    match tlang::compile(&p) {
        Ok(_) => panic!("expected a compile error"),
        Err(e) => assert!(e.render().starts_with("invalid regex '[invalid':")),
    }
}

#[test]
fn descend_maps_over_elements() {
    let input = line_array(&["a b", "c d"]);
    let result = run_programme("s@0", input).unwrap();
    assert_eq!(result, line_array(&["a", "c"]));
}

#[test]
fn ascend_returns_to_outer_level() {
    let input = line_array(&["a b", "c d"]);
    let result = run_programme("s@0^j", input).unwrap();
    assert_eq!(result, text("a\nc"));
}

#[test]
fn descend_passes_non_arrays_through() {
    let input = line_array(&["a", "b"]);
    let result = run_programme("@u", input).unwrap();
    assert_eq!(result, line_array(&["A", "B"]));
}

#[test]
fn noop_changes_nothing() {
    let input = line_array(&["a", "b"]);
    let result = run_programme(";", input).unwrap();
    assert_eq!(result, line_array(&["a", "b"]));
}

#[test]
fn run_empty_programme() {
    let input = line_array(&["hello", "world"]);
    let result = run_programme("", input).unwrap();
    assert_eq!(result, line_array(&["hello", "world"]));
}

#[test]
fn context_descend_ascend() {
    let mut ctx = tlang::Context::new(text("hello"));
    assert_eq!(ctx.depth(), 0);
    ctx.descend();
    assert_eq!(ctx.depth(), 1);
    ctx.descend();
    assert_eq!(ctx.depth(), 2);
    ctx.ascend();
    assert_eq!(ctx.depth(), 1);
    ctx.ascend();
    assert_eq!(ctx.depth(), 0);
    ctx.ascend();
    assert_eq!(ctx.depth(), 0);
}

#[test]
fn compile_simple_programme() {
    let p = tlang::parse_programme("s@l^j").unwrap();
    let ops = tlang::compile(&p).unwrap();
    assert_eq!(ops.len(), 5);
}

#[test]
fn requires_full_input_flags() {
    let p = tlang::parse_programme("sdoc#+").unwrap();
    let ops = tlang::compile(&p).unwrap();
    assert!(!tlang::requires_full_input(&ops[0]));
    assert!(tlang::requires_full_input(&ops[1]));
    assert!(tlang::requires_full_input(&ops[2]));
    assert!(tlang::requires_full_input(&ops[3]));
    assert!(tlang::requires_full_input(&ops[4]));
    assert!(!tlang::is_navigation(&ops[0]));
}

#[test]
fn word_frequency_pipeline() {
    let input = line_array(&["the cat sat", "the cat"]);
    let result = run_programme("sjldo", input).unwrap();
    let expected = Value::Array(Array::from((
        vec![
            Value::Array(Array::from((vec![num(2), text("the")], Level::Word))),
            Value::Array(Array::from((vec![num(2), text("cat")], Level::Word))),
            Value::Array(Array::from((vec![num(1), text("sat")], Level::Word))),
        ],
        Level::Line,
    )));
    // sorted descending over [count, word] rows: rows with equal counts
    // order lexicographically by their second cell under the total order
    let sorted = run_programme("o", expected.deep_copy()).unwrap();
    assert_eq!(result, sorted);
}

#[test]
fn columnate_single_cell_rows() {
    let input = line_array(&["a", "bb"]);
    let result = as_array(run_programme("c", input).unwrap());
    assert_eq!(result.elements[0], word_array(&["a"]));
    assert_eq!(result.elements[1], word_array(&["bb"]));
}

#[test]
fn columnate_empty_array() {
    let input = Value::Array(Array::new(Level::Line));
    let result = as_array(run_programme("c", input).unwrap());
    assert_eq!(result.len(), 0);
}

#[test]
fn csv_split_mode_parses_quoted_fields() {
    let p = tlang::parse_programme("s").unwrap();
    let cfg = tlang::CompileConfig {
        split_mode: tlang::SplitMode::Csv,
        join_mode: tlang::JoinMode::Semantic,
    };
    let ops = tlang::compile_with_config(&p, &cfg).unwrap();
    let mut ctx = tlang::Context::new(text("a,\"b,c\",d"));
    tlang::run(&ops, &mut ctx).unwrap();
    assert_eq!(ctx.into_value(), word_array(&["a", "b,c", "d"]));
}

#[test]
fn csv_join_mode_quotes_fields() {
    let p = tlang::parse_programme("j").unwrap();
    let cfg = tlang::CompileConfig {
        split_mode: tlang::SplitMode::Whitespace,
        join_mode: tlang::JoinMode::Csv,
    };
    let ops = tlang::compile_with_config(&p, &cfg).unwrap();
    let mut ctx = tlang::Context::new(word_array(&["a", "b,c", "d"]));
    tlang::run(&ops, &mut ctx).unwrap();
    assert_eq!(ctx.into_value(), text("a,\"b,c\",d"));
}

#[test]
fn split_mode_delimiter_from_config() {
    let p = tlang::parse_programme("s").unwrap();
    let cfg = tlang::CompileConfig {
        split_mode: tlang::SplitMode::Delimiter(";".to_string()),
        join_mode: tlang::JoinMode::Semantic,
    };
    let ops = tlang::compile_with_config(&p, &cfg).unwrap();
    let mut ctx = tlang::Context::new(text("a;b;c"));
    tlang::run(&ops, &mut ctx).unwrap();
    assert_eq!(ctx.into_value(), word_array(&["a", "b", "c"]));
}

#[test]
fn lowercase_via_wrapper_changes_text() {
    let result = run_programme("l", text("MiXeD")).unwrap();
    assert_eq!(result, text("mixed"));
}

#[test]
fn uppercase_via_wrapper_changes_text() {
    let result = run_programme("u", text("MiXeD")).unwrap();
    assert_eq!(result, text("MIXED"));
}

#[test]
fn error_aborts_remaining_operators() {
    // selecting from a number fails; the following uppercase never runs
    let input = num(5);
    let result = run_programme("0u", input);
    assert!(result.is_err());
    assert_eq!(result.unwrap_err().render(), "cannot select from number");
}

#[test]
fn dedupe_by_selection_counts_keys() {
    let row = |k: &str, n: i64| Value::Array(Array::from((vec![text(k), num(n)], Level::Line)));
    let input = Value::Array(Array::from((
        vec![row("a", 1), row("b", 2), row("a", 3)],
        Level::Line,
    )));
    let result = run_programme("D0", input).unwrap();
    let expected = Value::Array(Array::from((
        vec![
            Value::Array(Array::from((vec![num(2), row("a", 1)], Level::Word))),
            Value::Array(Array::from((vec![num(1), row("b", 2)], Level::Word))),
        ],
        Level::Line,
    )));
    assert_eq!(result, expected);
}

#[test]
fn help_text_is_available() {
    assert!(tlang::help_text().starts_with("Operators:"));
    assert_eq!(tlang::help_line_count(), 19);
}

#[test]
fn group_by_two_column_key() {
    let row = |a: &str, b: &str, n: i64| {
        Value::Array(Array::from((vec![text(a), text(b), num(n)], Level::Line)))
    };
    let input = Value::Array(Array::from((
        vec![row("x", "y", 1), row("x", "z", 2), row("x", "y", 3)],
        Level::Line,
    )));
    let result = as_array(run_programme("g0,1", input).unwrap());
    assert_eq!(result.len(), 2);
}

#[test]
fn dedupe_distinguishes_text_from_number() {
    let input = Value::Array(Array::from((vec![text("1"), num(1), text("1")], Level::Line)));
    let result = as_array(run_programme("d", input).unwrap());
    assert_eq!(result.len(), 2);
}

#[test]
fn dedupe_of_arrays_uses_structure() {
    let pair = |a: &str, b: &str| {
        Value::Array(Array::from((vec![text(a), text(b)], Level::Word)))
    };
    let input = Value::Array(Array::from((
        vec![pair("a", "b"), pair("a", "b"), pair("a", "c")],
        Level::Line,
    )));
    let result = as_array(run_programme("d", input).unwrap());
    assert_eq!(result.len(), 2);
    assert_eq!(
        result.elements[0],
        Value::Array(Array::from((vec![num(2), pair("a", "b")], Level::Word)))
    );
}

#[test]
fn columnate_flattens_one_extra_level() {
    let row = |cells: &[&str]| {
        Value::Array(Array::from((cells.iter().map(|s| text(s)).collect(), Level::Line)))
    };
    let block = |rows: Vec<Value>| Value::Array(Array::from((rows, Level::Line)));
    let input = Value::Array(Array::from((
        vec![block(vec![row(&["a", "bb"])]), block(vec![row(&["ccc", "d"])])],
        Level::File,
    )));
    let result = as_array(run_programme("c", input).unwrap());
    assert_eq!(result.len(), 2);
    let out_row = |cells: &[&str]| {
        Value::Array(Array::from((cells.iter().map(|s| text(s)).collect(), Level::Word)))
    };
    assert_eq!(result.elements[0], out_row(&["a  ", "bb"]));
    assert_eq!(result.elements[1], out_row(&["ccc", "d"]));
}

#[test]
fn trim_handles_wide_whitespace() {
    let result = run_programme("t", text("\u{a0}a\u{2009}")).unwrap();
    assert_eq!(result, text("a"));
}

#[test]
fn selection_drops_out_of_range_in_multi_context() {
    let result = run_programme("0,9", line_array(&["a", "b"])).unwrap();
    assert_eq!(result, line_array(&["a"]));
}

#[test]
fn join_adopts_inner_level_when_flattening() {
    // flattening an array of Word-level arrays adopts Word, so a second
    // join separates with spaces
    let input = Value::Array(Array::from((
        vec![word_array(&["a", "b"]), word_array(&["c"])],
        Level::Line,
    )));
    let result = run_programme("jj", input).unwrap();
    assert_eq!(result, text("a b c"));
}

#[test]
fn sum_of_decimals_is_exact() {
    let input = line_array(&["0.1", "0.2"]);
    let result = run_programme("n+", input).unwrap();
    assert_eq!(result, Value::Number(Number::new(3, 1).unwrap()));
}

#[test]
fn split_file_level_array_recurses() {
    let input = Value::Array(Array::from((
        vec![line_array(&["a b", "c"])],
        Level::File,
    )));
    let result = as_array(run_programme("s", input).unwrap());
    if let Value::Array(inner) = &result.elements[0] {
        assert_eq!(inner.elements[0], word_array(&["a", "b"]));
        assert_eq!(inner.elements[1], word_array(&["c"]));
    } else {
        panic!("expected nested array");
    }
}

#[test]
fn match_extracts_ip_like_tokens() {
    let input = line_array(&["192.168.1.1 connected to 10.0.0.1", "172.16.0.1 only"]);
    let result = as_array(run_programme(r"m/[0-9]+\.[0-9]+\.[0-9]+\.[0-9]+/", input).unwrap());
    assert_eq!(result.elements[0], word_array(&["192.168.1.1", "10.0.0.1"]));
    assert_eq!(result.elements[1], word_array(&["172.16.0.1"]));
}

#[test]
fn match_on_bare_text() {
    let result = run_programme("m/[0-9]+/", text("a1b22c")).unwrap();
    assert_eq!(result, word_array(&["1", "22"]));
}

#[test]
fn join_renders_numbers() {
    let input = Value::Array(Array::from((vec![num(1), num(2)], Level::Word)));
    let result = run_programme("j", input).unwrap();
    assert_eq!(result, text("1 2"));
}

#[test]
fn join_of_text_passes_through() {
    let result = run_programme("j", text("abc")).unwrap();
    assert_eq!(result, text("abc"));
}

#[test]
fn join_of_empty_array_is_empty_text() {
    let input = Value::Array(Array::new(Level::Word));
    let result = run_programme("j", input).unwrap();
    assert_eq!(result, text(""));
}

#[test]
fn split_of_number_passes_through() {
    let result = run_programme("s", num(42)).unwrap();
    assert_eq!(result, num(42));
}

#[test]
fn split_empty_text_yields_empty_array() {
    let result = run_programme("s", text("")).unwrap();
    assert_eq!(result, word_array(&[]));
}

#[test]
fn to_number_recurses_into_arrays() {
    let input = Value::Array(Array::from((
        vec![word_array(&["1", "2"]), text("3")],
        Level::Line,
    )));
    let result = run_programme("n", input).unwrap();
    let expected = Value::Array(Array::from((
        vec![
            Value::Array(Array::from((vec![num(1), num(2)], Level::Word))),
            num(3),
        ],
        Level::Line,
    )));
    assert_eq!(result, expected);
}

#[test]
fn dedupe_single_element() {
    let input = line_array(&["only"]);
    let result = run_programme("d", input).unwrap();
    let expected = Value::Array(Array::from((
        vec![Value::Array(Array::from((vec![num(1), text("only")], Level::Word)))],
        Level::Line,
    )));
    assert_eq!(result, expected);
}

#[test]
fn dedupe_empty_array() {
    let input = Value::Array(Array::new(Level::Line));
    let result = as_array(run_programme("d", input).unwrap());
    assert_eq!(result.len(), 0);
}

#[test]
fn sum_of_empty_array_is_zero() {
    let input = Value::Array(Array::new(Level::Line));
    let result = run_programme("+", input).unwrap();
    assert_eq!(result, num(0));
}

#[test]
fn sum_of_bare_number() {
    let result = run_programme("+", num(7)).unwrap();
    assert_eq!(result, num(7));
}

#[test]
fn sort_empty_array() {
    let input = Value::Array(Array::new(Level::Line));
    let result = as_array(run_programme("O", input).unwrap());
    assert_eq!(result.len(), 0);
}

#[test]
fn sort_arrays_lexicographically_shorter_first() {
    let pair = |xs: &[&str]| {
        Value::Array(Array::from((xs.iter().map(|s| text(s)).collect(), Level::Word)))
    };
    let input = Value::Array(Array::from((
        vec![pair(&["a", "b"]), pair(&["a"])],
        Level::Line,
    )));
    let result = as_array(run_programme("O", input).unwrap());
    assert_eq!(result.elements[0], pair(&["a"]));
    assert_eq!(result.elements[1], pair(&["a", "b"]));
}

#[test]
fn filter_passes_non_arrays_through() {
    let result = run_programme("/a/", text("banana")).unwrap();
    assert_eq!(result, text("banana"));
}

#[test]
fn replace_leaves_numbers_alone() {
    let input = Value::Array(Array::from((vec![num(5), text("5")], Level::Line)));
    let result = run_programme("r/5/x/", input).unwrap();
    let expected = Value::Array(Array::from((vec![num(5), text("x")], Level::Line)));
    assert_eq!(result, expected);
}

#[test]
fn trim_selected_out_of_range_changes_nothing() {
    let input = line_array(&[" a "]);
    let result = run_programme("T5", input).unwrap();
    assert_eq!(result, line_array(&[" a "]));
}

#[test]
fn deep_pipeline_word_extraction() {
    let input = line_array(&["one two three", "four five"]);
    let result = run_programme("s@-1", input).unwrap();
    assert_eq!(result, line_array(&["three", "five"]));
}

#[test]
fn select_slice_from_start_of_array() {
    let result = run_programme(":2", line_array(&["a", "b", "c", "d"])).unwrap();
    assert_eq!(result, line_array(&["a", "b"]));
}

#[test]
fn select_slice_to_end_of_array() {
    let result = run_programme("2:", line_array(&["a", "b", "c", "d"])).unwrap();
    assert_eq!(result, line_array(&["c", "d"]));
}

#[test]
fn select_negative_slice_bounds() {
    let result = run_programme("0:-1", line_array(&["a", "b", "c"])).unwrap();
    assert_eq!(result, line_array(&["a", "b"]));
}

#[test]
fn select_negative_step_with_bounds() {
    let result = run_programme("3:0:-1", line_array(&["a", "b", "c", "d", "e"])).unwrap();
    assert_eq!(result, line_array(&["d", "c", "b"]));
}

#[test]
fn select_step_zero_selects_nothing() {
    let result = run_programme("::0", line_array(&["a", "b"])).unwrap();
    assert_eq!(result, line_array(&[]));
}

#[test]
fn split_delim_tab() {
    let result = run_programme(r"S\t", text("a\tb")).unwrap();
    assert_eq!(result, word_array(&["a", "b"]));
}

#[test]
fn join_delim_empty_delimiter_concatenates() {
    let result = run_programme("J\"\"", word_array(&["a", "b", "c"])).unwrap();
    assert_eq!(result, text("abc"));
}

#[test]
fn join_delim_renders_numbers() {
    let input = Value::Array(Array::from((vec![num(1), num(2)], Level::Word)));
    let result = run_programme("J-", input).unwrap();
    assert_eq!(result, text("1-2"));
}

#[test]
fn uppercase_leaves_numbers_alone() {
    let input = Value::Array(Array::from((vec![text("a"), num(1)], Level::Line)));
    let result = run_programme("u", input).unwrap();
    let expected = Value::Array(Array::from((vec![text("A"), num(1)], Level::Line)));
    assert_eq!(result, expected);
}

#[test]
fn lowercase_recurses_into_nested_arrays() {
    let input = Value::Array(Array::from((
        vec![word_array(&["AB", "CD"]), text("EF")],
        Level::Line,
    )));
    let result = run_programme("l", input).unwrap();
    let expected = Value::Array(Array::from((
        vec![word_array(&["ab", "cd"]), text("ef")],
        Level::Line,
    )));
    assert_eq!(result, expected);
}

#[test]
fn sort_is_stable_for_equal_elements() {
    // arrays that compare equal but differ in level keep their input order
    let a = Value::Array(Array::from((vec![text("x")], Level::Word)));
    let b = Value::Array(Array::from((vec![text("x")], Level::Char)));
    let input = Value::Array(Array::from((vec![a.deep_copy(), b.deep_copy()], Level::Line)));
    let result = as_array(run_programme("O", input).unwrap());
    assert_eq!(result.elements[0], a);
    assert_eq!(result.elements[1], b);
}

#[test]
fn dedupe_selection_single_out_of_range_errors() {
    let row = |k: &str| Value::Array(Array::from((vec![text(k)], Level::Line)));
    let input = Value::Array(Array::from((vec![row("a")], Level::Line)));
    let result = run_programme("D5", input);
    assert!(result.is_err());
}

#[test]
fn group_by_single_out_of_range_errors() {
    let row = |k: &str| Value::Array(Array::from((vec![text(k)], Level::Line)));
    let input = Value::Array(Array::from((vec![row("a")], Level::Line)));
    let result = run_programme("g5", input);
    assert!(result.is_err());
}

#[test]
fn count_empty_array_is_zero() {
    let input = Value::Array(Array::new(Level::Line));
    let result = run_programme("#", input).unwrap();
    assert_eq!(result, num(0));
}

#[test]
fn filter_on_joined_rows() {
    let row = |cells: &[&str]| {
        Value::Array(Array::from((cells.iter().map(|s| text(s)).collect(), Level::Word)))
    };
    let input = Value::Array(Array::from((
        vec![row(&["alice", "30"]), row(&["bob", "25"])],
        Level::Line,
    )));
    let result = as_array(run_programme("/bob/", input).unwrap());
    assert_eq!(result.len(), 1);
    assert_eq!(result.elements[0], row(&["bob", "25"]));
}

#[test]
fn split_join_twice_equals_once() {
    let once = run_programme("sj", text(" a  b\tc ")).unwrap();
    let twice = run_programme("sjsj", text(" a  b\tc ")).unwrap();
    assert_eq!(once, twice);
    assert_eq!(once, text("a b c"));
}
