use tlang::{parse_programme, Operator, SelectItem, Selection, Slice};

fn sel(items: Vec<SelectItem>) -> Selection {
    Selection { items }
}

#[test]
fn empty_programme() {
    let result = parse_programme("").unwrap();
    assert_eq!(result.operators, vec![]);
}

#[test]
fn simple_operators() {
    let result = parse_programme("sjul").unwrap();
    assert_eq!(
        result.operators,
        vec![Operator::Split, Operator::Join, Operator::Uppercase, Operator::Lowercase]
    );
}

#[test]
fn descend_ascend() {
    let result = parse_programme("@^").unwrap();
    assert_eq!(result.operators, vec![Operator::Descend, Operator::Ascend]);
}

#[test]
fn single_index() {
    let result = parse_programme("0").unwrap();
    assert_eq!(
        result.operators,
        vec![Operator::Selection(sel(vec![SelectItem::Index(0)]))]
    );
}

#[test]
fn negative_index() {
    let result = parse_programme("-1").unwrap();
    assert_eq!(
        result.operators,
        vec![Operator::Selection(sel(vec![SelectItem::Index(-1)]))]
    );
}

#[test]
fn slice_from_start() {
    let result = parse_programme(":3").unwrap();
    assert_eq!(
        result.operators,
        vec![Operator::Selection(sel(vec![SelectItem::Slice(Slice {
            start: None,
            end: Some(3),
            step: None,
        })]))]
    );
}

#[test]
fn slice_to_end() {
    let result = parse_programme("0:").unwrap();
    assert_eq!(
        result.operators,
        vec![Operator::Selection(sel(vec![SelectItem::Slice(Slice {
            start: Some(0),
            end: None,
            step: None,
        })]))]
    );
}

#[test]
fn full_slice() {
    let result = parse_programme("1:5").unwrap();
    assert_eq!(
        result.operators,
        vec![Operator::Selection(sel(vec![SelectItem::Slice(Slice {
            start: Some(1),
            end: Some(5),
            step: None,
        })]))]
    );
}

#[test]
fn slice_with_stride() {
    let result = parse_programme("1::3").unwrap();
    assert_eq!(
        result.operators,
        vec![Operator::Selection(sel(vec![SelectItem::Slice(Slice {
            start: Some(1),
            end: None,
            step: Some(3),
        })]))]
    );
}

#[test]
fn full_slice_with_stride() {
    let result = parse_programme("1:5:2").unwrap();
    assert_eq!(
        result.operators,
        vec![Operator::Selection(sel(vec![SelectItem::Slice(Slice {
            start: Some(1),
            end: Some(5),
            step: Some(2),
        })]))]
    );
}

#[test]
fn reverse_slice() {
    let result = parse_programme("::-1").unwrap();
    assert_eq!(
        result.operators,
        vec![Operator::Selection(sel(vec![SelectItem::Slice(Slice {
            start: None,
            end: None,
            step: Some(-1),
        })]))]
    );
}

#[test]
fn multi_select_indices() {
    let result = parse_programme("0,2,3").unwrap();
    assert_eq!(
        result.operators,
        vec![Operator::Selection(sel(vec![
            SelectItem::Index(0),
            SelectItem::Index(2),
            SelectItem::Index(3),
        ]))]
    );
}

#[test]
fn mixed_selection() {
    let result = parse_programme("-1,0:-1").unwrap();
    assert_eq!(
        result.operators,
        vec![Operator::Selection(sel(vec![
            SelectItem::Index(-1),
            SelectItem::Slice(Slice { start: Some(0), end: Some(-1), step: None }),
        ]))]
    );
}

#[test]
fn combined_programme() {
    let result = parse_programme("s@0j").unwrap();
    assert_eq!(
        result.operators,
        vec![
            Operator::Split,
            Operator::Descend,
            Operator::Selection(sel(vec![SelectItem::Index(0)])),
            Operator::Join,
        ]
    );
}

#[test]
fn complex_programme() {
    let result = parse_programme("s@0,2,3^j").unwrap();
    assert_eq!(
        result.operators,
        vec![
            Operator::Split,
            Operator::Descend,
            Operator::Selection(sel(vec![
                SelectItem::Index(0),
                SelectItem::Index(2),
                SelectItem::Index(3),
            ])),
            Operator::Ascend,
            Operator::Join,
        ]
    );
}

#[test]
fn slice_then_simple_op() {
    let result = parse_programme(":3l").unwrap();
    assert_eq!(
        result.operators,
        vec![
            Operator::Selection(sel(vec![SelectItem::Slice(Slice {
                start: None,
                end: Some(3),
                step: None,
            })])),
            Operator::Lowercase,
        ]
    );
}

#[test]
fn filter_keep() {
    let result = parse_programme("/^a/").unwrap();
    assert_eq!(
        result.operators,
        vec![Operator::Filter { pattern: "^a".to_string(), negate: false }]
    );
}

#[test]
fn filter_remove() {
    let result = parse_programme("!/^a/").unwrap();
    assert_eq!(
        result.operators,
        vec![Operator::Filter { pattern: "^a".to_string(), negate: true }]
    );
}

#[test]
fn filter_complex_pattern() {
    let result = parse_programme("/foo.*bar/").unwrap();
    assert_eq!(
        result.operators,
        vec![Operator::Filter { pattern: "foo.*bar".to_string(), negate: false }]
    );
}

#[test]
fn filter_combined_with_other_ops() {
    let result = parse_programme("s/^a/l").unwrap();
    assert_eq!(
        result.operators,
        vec![
            Operator::Split,
            Operator::Filter { pattern: "^a".to_string(), negate: false },
            Operator::Lowercase,
        ]
    );
}

#[test]
fn filter_chained() {
    let result = parse_programme("/foo/!/bar/").unwrap();
    assert_eq!(
        result.operators,
        vec![
            Operator::Filter { pattern: "foo".to_string(), negate: false },
            Operator::Filter { pattern: "bar".to_string(), negate: true },
        ]
    );
}

#[test]
fn match_extraction() {
    let result = parse_programme("m/[0-9]+/").unwrap();
    assert_eq!(
        result.operators,
        vec![Operator::Match { pattern: "[0-9]+".to_string() }]
    );
}

#[test]
fn group_by_single_index() {
    let result = parse_programme("g0").unwrap();
    assert_eq!(result.operators, vec![Operator::GroupBy(sel(vec![SelectItem::Index(0)]))]);
}

#[test]
fn group_by_negative_index() {
    let result = parse_programme("g-1").unwrap();
    assert_eq!(result.operators, vec![Operator::GroupBy(sel(vec![SelectItem::Index(-1)]))]);
}

#[test]
fn group_by_composite_key() {
    let result = parse_programme("g0,2").unwrap();
    assert_eq!(
        result.operators,
        vec![Operator::GroupBy(sel(vec![SelectItem::Index(0), SelectItem::Index(2)]))]
    );
}

#[test]
fn group_by_slice() {
    let result = parse_programme("g0:3").unwrap();
    assert_eq!(
        result.operators,
        vec![Operator::GroupBy(sel(vec![SelectItem::Slice(Slice {
            start: Some(0),
            end: Some(3),
            step: None,
        })]))]
    );
}

#[test]
fn group_by_followed_by_ops() {
    let result = parse_programme("sg0o").unwrap();
    assert_eq!(
        result.operators,
        vec![
            Operator::Split,
            Operator::GroupBy(sel(vec![SelectItem::Index(0)])),
            Operator::SortDescending,
        ]
    );
}

#[test]
fn group_by_missing_selection_error() {
    let result = parse_programme("sg");
    assert_eq!(
        result,
        Err("parse error: expected <selection>\n  sg\n    ^".to_string())
    );
}

#[test]
fn filter_empty_pattern_error() {
    let result = parse_programme("//");
    assert_eq!(
        result,
        Err("parse error: expected <pattern>\n  //\n   ^".to_string())
    );
}

#[test]
fn filter_missing_closing_slash_error() {
    let result = parse_programme("/foo");
    assert_eq!(
        result,
        Err("parse error: expected closing '/'\n  /foo\n      ^".to_string())
    );
}

#[test]
fn split_delim_single_char() {
    let result = parse_programme("S,").unwrap();
    assert_eq!(result.operators, vec![Operator::SplitDelim(",".to_string())]);
}

#[test]
fn split_delim_colon() {
    let result = parse_programme("S:").unwrap();
    assert_eq!(result.operators, vec![Operator::SplitDelim(":".to_string())]);
}

#[test]
fn split_delim_quoted_multi_char() {
    let result = parse_programme(r#"S"::""#).unwrap();
    assert_eq!(result.operators, vec![Operator::SplitDelim("::".to_string())]);
}

#[test]
fn split_delim_quoted_single_char() {
    let result = parse_programme(r#"S",""#).unwrap();
    assert_eq!(result.operators, vec![Operator::SplitDelim(",".to_string())]);
}

#[test]
fn split_delim_empty_string_error() {
    let result = parse_programme(r#"S"""#);
    assert!(result.is_err());
}

#[test]
fn split_delim_escape_newline() {
    let result = parse_programme(r#"S"\n""#).unwrap();
    assert_eq!(result.operators, vec![Operator::SplitDelim("\n".to_string())]);
}

#[test]
fn split_delim_escape_tab() {
    let result = parse_programme(r#"S"\t""#).unwrap();
    assert_eq!(result.operators, vec![Operator::SplitDelim("\t".to_string())]);
}

#[test]
fn split_delim_escape_backslash() {
    let result = parse_programme(r#"S"\\""#).unwrap();
    assert_eq!(result.operators, vec![Operator::SplitDelim("\\".to_string())]);
}

#[test]
fn split_delim_escape_quote() {
    let result = parse_programme(r#"S"\"""#).unwrap();
    assert_eq!(result.operators, vec![Operator::SplitDelim("\"".to_string())]);
}

#[test]
fn split_delim_escape_hex() {
    let result = parse_programme(r#"S"\x41""#).unwrap();
    assert_eq!(result.operators, vec![Operator::SplitDelim("A".to_string())]);
}

#[test]
fn split_delim_escape_unicode() {
    let result = parse_programme(r#"S"\u0041""#).unwrap();
    assert_eq!(result.operators, vec![Operator::SplitDelim("A".to_string())]);
}

#[test]
fn split_delim_combined_escapes() {
    let result = parse_programme(r#"S"\t\n\r""#).unwrap();
    assert_eq!(result.operators, vec![Operator::SplitDelim("\t\n\r".to_string())]);
}

#[test]
fn split_delim_followed_by_ops() {
    let result = parse_programme("S,l").unwrap();
    assert_eq!(
        result.operators,
        vec![Operator::SplitDelim(",".to_string()), Operator::Lowercase]
    );
}

#[test]
fn split_delim_missing_delimiter_error() {
    let result = parse_programme("S");
    assert!(result.is_err());
}

#[test]
fn split_delim_unclosed_quote_error() {
    let result = parse_programme(r#"S"foo"#);
    assert!(result.is_err());
}

#[test]
fn split_delim_invalid_escape_error() {
    let result = parse_programme(r#"S"\q""#);
    assert!(result.is_err());
}

#[test]
fn split_delim_invalid_hex_error() {
    let result = parse_programme(r#"S"\xGG""#);
    assert!(result.is_err());
}

#[test]
fn split_delim_short_unicode_error() {
    let result = parse_programme(r#"S"\u41""#);
    assert!(result.is_err());
}

#[test]
fn split_delim_unquoted_escape_nul() {
    let result = parse_programme(r"S\0").unwrap();
    assert_eq!(result.operators, vec![Operator::SplitDelim("\0".to_string())]);
}

#[test]
fn split_delim_unquoted_escape_newline() {
    let result = parse_programme(r"S\n").unwrap();
    assert_eq!(result.operators, vec![Operator::SplitDelim("\n".to_string())]);
}

#[test]
fn split_delim_unquoted_escape_tab() {
    let result = parse_programme(r"S\t").unwrap();
    assert_eq!(result.operators, vec![Operator::SplitDelim("\t".to_string())]);
}

#[test]
fn split_delim_unquoted_escape_hex() {
    let result = parse_programme(r"S\x00").unwrap();
    assert_eq!(result.operators, vec![Operator::SplitDelim("\0".to_string())]);
}

#[test]
fn split_delim_unquoted_escape_unicode() {
    let result = parse_programme(r"S\u0000").unwrap();
    assert_eq!(result.operators, vec![Operator::SplitDelim("\0".to_string())]);
}

#[test]
fn split_delim_unquoted_escape_backslash() {
    let result = parse_programme(r"S\\").unwrap();
    assert_eq!(result.operators, vec![Operator::SplitDelim("\\".to_string())]);
}

#[test]
fn split_delim_unquoted_escape_followed_by_ops() {
    let result = parse_programme(r"S\nl").unwrap();
    assert_eq!(
        result.operators,
        vec![Operator::SplitDelim("\n".to_string()), Operator::Lowercase]
    );
}

#[test]
fn join_delim_unquoted_escape_nul() {
    let result = parse_programme(r"J\0").unwrap();
    assert_eq!(result.operators, vec![Operator::JoinDelim("\0".to_string())]);
}

#[test]
fn join_delim_unquoted_escape_newline() {
    let result = parse_programme(r"J\n").unwrap();
    assert_eq!(result.operators, vec![Operator::JoinDelim("\n".to_string())]);
}

#[test]
fn join_delim_single_char() {
    let result = parse_programme("J,").unwrap();
    assert_eq!(result.operators, vec![Operator::JoinDelim(",".to_string())]);
}

#[test]
fn join_delim_quoted_multi_char() {
    let result = parse_programme(r#"J", ""#).unwrap();
    assert_eq!(result.operators, vec![Operator::JoinDelim(", ".to_string())]);
}

#[test]
fn join_delim_empty_string() {
    let result = parse_programme(r#"J"""#).unwrap();
    assert_eq!(result.operators, vec![Operator::JoinDelim("".to_string())]);
}

#[test]
fn join_delim_escape_newline() {
    let result = parse_programme(r#"J"\n""#).unwrap();
    assert_eq!(result.operators, vec![Operator::JoinDelim("\n".to_string())]);
}

#[test]
fn join_delim_followed_by_ops() {
    let result = parse_programme("sJ,").unwrap();
    assert_eq!(result.operators, vec![Operator::Split, Operator::JoinDelim(",".to_string())]);
}

#[test]
fn join_delim_missing_delimiter_error() {
    let result = parse_programme("J");
    assert!(result.is_err());
}

#[test]
fn lowercase_selected_single_index() {
    let result = parse_programme("L0").unwrap();
    assert_eq!(
        result.operators,
        vec![Operator::LowercaseSelected(sel(vec![SelectItem::Index(0)]))]
    );
}

#[test]
fn lowercase_selected_slice() {
    let result = parse_programme("L:2").unwrap();
    assert_eq!(
        result.operators,
        vec![Operator::LowercaseSelected(sel(vec![SelectItem::Slice(Slice {
            start: None,
            end: Some(2),
            step: None,
        })]))]
    );
}

#[test]
fn lowercase_selected_multi() {
    let result = parse_programme("L0,2").unwrap();
    assert_eq!(
        result.operators,
        vec![Operator::LowercaseSelected(sel(vec![SelectItem::Index(0), SelectItem::Index(2)]))]
    );
}

#[test]
fn lowercase_selected_missing_selection_error() {
    let result = parse_programme("L");
    assert!(result.is_err());
}

#[test]
fn uppercase_selected_single_index() {
    let result = parse_programme("U0").unwrap();
    assert_eq!(
        result.operators,
        vec![Operator::UppercaseSelected(sel(vec![SelectItem::Index(0)]))]
    );
}

#[test]
fn uppercase_selected_missing_selection_error() {
    let result = parse_programme("U");
    assert!(result.is_err());
}

#[test]
fn replace_basic() {
    let result = parse_programme("r/foo/bar/").unwrap();
    assert_eq!(
        result.operators,
        vec![Operator::Replace {
            selection: None,
            pattern: "foo".to_string(),
            replacement: "bar".to_string(),
        }]
    );
}

#[test]
fn replace_empty_replacement() {
    let result = parse_programme("r/foo//").unwrap();
    assert_eq!(
        result.operators,
        vec![Operator::Replace {
            selection: None,
            pattern: "foo".to_string(),
            replacement: "".to_string(),
        }]
    );
}

#[test]
fn replace_with_selection() {
    let result = parse_programme("r0/foo/bar/").unwrap();
    assert_eq!(
        result.operators,
        vec![Operator::Replace {
            selection: Some(sel(vec![SelectItem::Index(0)])),
            pattern: "foo".to_string(),
            replacement: "bar".to_string(),
        }]
    );
}

#[test]
fn replace_with_slice_selection() {
    let result = parse_programme("r:2/foo/bar/").unwrap();
    assert_eq!(
        result.operators,
        vec![Operator::Replace {
            selection: Some(sel(vec![SelectItem::Slice(Slice {
                start: None,
                end: Some(2),
                step: None,
            })])),
            pattern: "foo".to_string(),
            replacement: "bar".to_string(),
        }]
    );
}

#[test]
fn replace_followed_by_ops() {
    let result = parse_programme("r/a/b/l").unwrap();
    assert_eq!(
        result.operators,
        vec![
            Operator::Replace {
                selection: None,
                pattern: "a".to_string(),
                replacement: "b".to_string(),
            },
            Operator::Lowercase,
        ]
    );
}

#[test]
fn replace_missing_pattern_error() {
    let result = parse_programme("r//b/");
    assert!(result.is_err());
}

#[test]
fn replace_missing_closing_slash_error() {
    let result = parse_programme("r/foo/bar");
    assert!(result.is_err());
}

#[test]
fn to_number_simple() {
    let result = parse_programme("n").unwrap();
    assert_eq!(result.operators, vec![Operator::ToNumber]);
}

#[test]
fn to_number_in_sequence() {
    let result = parse_programme("snj").unwrap();
    assert_eq!(result.operators, vec![Operator::Split, Operator::ToNumber, Operator::Join]);
}

#[test]
fn to_number_selected_single_index() {
    let result = parse_programme("N0").unwrap();
    assert_eq!(
        result.operators,
        vec![Operator::ToNumberSelected(sel(vec![SelectItem::Index(0)]))]
    );
}

#[test]
fn to_number_selected_slice() {
    let result = parse_programme("N:2").unwrap();
    assert_eq!(
        result.operators,
        vec![Operator::ToNumberSelected(sel(vec![SelectItem::Slice(Slice {
            start: None,
            end: Some(2),
            step: None,
        })]))]
    );
}

#[test]
fn to_number_selected_multi() {
    let result = parse_programme("N0,2").unwrap();
    assert_eq!(
        result.operators,
        vec![Operator::ToNumberSelected(sel(vec![SelectItem::Index(0), SelectItem::Index(2)]))]
    );
}

#[test]
fn to_number_selected_missing_selection_error() {
    let result = parse_programme("N");
    assert!(result.is_err());
}

#[test]
fn to_number_selected_followed_by_ops() {
    let result = parse_programme("N0l").unwrap();
    assert_eq!(
        result.operators,
        vec![
            Operator::ToNumberSelected(sel(vec![SelectItem::Index(0)])),
            Operator::Lowercase,
        ]
    );
}

#[test]
fn trim_selected_single_index() {
    let result = parse_programme("T0").unwrap();
    assert_eq!(result.operators, vec![Operator::TrimSelected(sel(vec![SelectItem::Index(0)]))]);
}

#[test]
fn trim_selected_slice() {
    let result = parse_programme("T:2").unwrap();
    assert_eq!(
        result.operators,
        vec![Operator::TrimSelected(sel(vec![SelectItem::Slice(Slice {
            start: None,
            end: Some(2),
            step: None,
        })]))]
    );
}

#[test]
fn trim_selected_multi() {
    let result = parse_programme("T0,2").unwrap();
    assert_eq!(
        result.operators,
        vec![Operator::TrimSelected(sel(vec![SelectItem::Index(0), SelectItem::Index(2)]))]
    );
}

#[test]
fn trim_selected_missing_selection_error() {
    let result = parse_programme("T");
    assert!(result.is_err());
}

#[test]
fn trim_selected_followed_by_ops() {
    let result = parse_programme("T0l").unwrap();
    assert_eq!(
        result.operators,
        vec![Operator::TrimSelected(sel(vec![SelectItem::Index(0)])), Operator::Lowercase]
    );
}

#[test]
fn dedupe_selection_single_index() {
    let result = parse_programme("D0").unwrap();
    assert_eq!(
        result.operators,
        vec![Operator::DedupeSelectionWithCounts(sel(vec![SelectItem::Index(0)]))]
    );
}

#[test]
fn dedupe_selection_in_sequence() {
    let result = parse_programme("sD0O").unwrap();
    assert_eq!(
        result.operators,
        vec![
            Operator::Split,
            Operator::DedupeSelectionWithCounts(sel(vec![SelectItem::Index(0)])),
            Operator::SortAscending,
        ]
    );
}

#[test]
fn dedupe_selection_missing_selection_error() {
    let result = parse_programme("D");
    assert!(result.is_err());
}

#[test]
fn columnate_simple() {
    let result = parse_programme("c").unwrap();
    assert_eq!(result.operators, vec![Operator::Columnate]);
}

#[test]
fn columnate_in_sequence() {
    let result = parse_programme("scj").unwrap();
    assert_eq!(result.operators, vec![Operator::Split, Operator::Columnate, Operator::Join]);
}

#[test]
fn partition_single_index() {
    let result = parse_programme("p2").unwrap();
    assert_eq!(result.operators, vec![Operator::Partition(sel(vec![SelectItem::Index(2)]))]);
}

#[test]
fn partition_multiple_indices() {
    let result = parse_programme("p2,5").unwrap();
    assert_eq!(
        result.operators,
        vec![Operator::Partition(sel(vec![SelectItem::Index(2), SelectItem::Index(5)]))]
    );
}

#[test]
fn partition_slice_step() {
    let result = parse_programme("p::2").unwrap();
    assert_eq!(
        result.operators,
        vec![Operator::Partition(sel(vec![SelectItem::Slice(Slice {
            start: None,
            end: None,
            step: Some(2),
        })]))]
    );
}

#[test]
fn partition_missing_selection_error() {
    let result = parse_programme("p");
    assert!(result.is_err());
}

#[test]
fn partition_in_sequence() {
    let result = parse_programme("sp2j").unwrap();
    assert_eq!(
        result.operators,
        vec![
            Operator::Split,
            Operator::Partition(sel(vec![SelectItem::Index(2)])),
            Operator::Join,
        ]
    );
}

#[test]
fn noop_single() {
    let result = parse_programme(";").unwrap();
    assert_eq!(result.operators, vec![Operator::NoOp]);
}

#[test]
fn noop_as_separator() {
    let result = parse_programme("s;j").unwrap();
    assert_eq!(result.operators, vec![Operator::Split, Operator::NoOp, Operator::Join]);
}

#[test]
fn noop_multiple() {
    let result = parse_programme("s;;j").unwrap();
    assert_eq!(
        result.operators,
        vec![Operator::Split, Operator::NoOp, Operator::NoOp, Operator::Join]
    );
}

#[test]
fn unexpected_character_error() {
    let result = parse_programme("s?");
    assert_eq!(
        result,
        Err("parse error: unexpected character\n  s?\n   ^".to_string())
    );
}

#[test]
fn parse_error_offset_counts_bytes() {
    let result = parse_programme("sP");
    assert_eq!(
        result,
        Err("parse error: unexpected character\n  sP\n   ^".to_string())
    );
}

#[test]
fn replace_error_reports_closing_slash() {
    let result = parse_programme("r");
    assert_eq!(
        result,
        Err("parse error: expected closing '/'\n  r\n   ^".to_string())
    );
}

#[test]
fn selection_stops_before_trailing_comma() {
    // the comma is left unconsumed, and no operator starts with it
    let result = parse_programme("0,u");
    assert_eq!(
        result,
        Err("parse error: unexpected character\n  0,u\n   ^".to_string())
    );
}

#[test]
fn huge_index_saturates() {
    let result = parse_programme("99999999999999999999999").unwrap();
    assert_eq!(
        result.operators,
        vec![Operator::Selection(sel(vec![SelectItem::Index(i64::MAX)]))]
    );
}
