use roblox_slang::format::{extract_parameters_with_format, generate_format_code, parse_format_specifier, FormatSpecifier};

#[test]
fn test_parse_format_specifier() {
    let (name, spec) = parse_format_specifier("count:int");
    assert_eq!(name, "count");
    assert_eq!(spec, FormatSpecifier::Int);
}

#[test]
fn test_parse_fixed_specifier() {
    let (name, spec) = parse_format_specifier("price:fixed(2)");
    assert_eq!(name, "price");
    assert_eq!(spec, FormatSpecifier::Fixed(2));
}

#[test]
fn test_parse_no_specifier() {
    let (name, spec) = parse_format_specifier("name");
    assert_eq!(name, "name");
    assert_eq!(spec, FormatSpecifier::Unformatted);
}

#[test]
fn test_parse_num_specifier() {
    let (name, spec) = parse_format_specifier("value:num");
    assert_eq!(name, "value");
    assert_eq!(spec, FormatSpecifier::Num);
}

#[test]
fn test_parse_datetime_specifier() {
    let (name, spec) = parse_format_specifier("date:datetime");
    assert_eq!(name, "date");
    assert_eq!(spec, FormatSpecifier::DateTime);
}

#[test]
fn test_parse_translate_specifier() {
    let (name, spec) = parse_format_specifier("label:translate");
    assert_eq!(name, "label");
    assert_eq!(spec, FormatSpecifier::Translate);
}

#[test]
fn test_parse_fixed_with_different_digits() {
    let (name, spec) = parse_format_specifier("price:fixed(4)");
    assert_eq!(name, "price");
    assert_eq!(spec, FormatSpecifier::Fixed(4));

    let (name2, spec2) = parse_format_specifier("amount:fixed(0)");
    assert_eq!(name2, "amount");
    assert_eq!(spec2, FormatSpecifier::Fixed(0));
}

#[test]
fn test_parse_invalid_fixed_defaults_to_2() {
    let (name, spec) = parse_format_specifier("price:fixed(abc)");
    assert_eq!(name, "price");
    assert_eq!(spec, FormatSpecifier::Fixed(2)); // Defaults to 2 on parse error
}

#[test]
fn test_parse_unknown_specifier() {
    let (name, spec) = parse_format_specifier("value:unknown");
    assert_eq!(name, "value");
    assert_eq!(spec, FormatSpecifier::Unformatted);
}

#[test]
fn test_parse_with_whitespace() {
    let (name, spec) = parse_format_specifier("  count : int  ");
    assert_eq!(name, "count");
    assert_eq!(spec, FormatSpecifier::Int);
}

#[test]
fn test_extract_parameters_with_format() {
    let text = "Price: {price:fixed(2)}, Count: {count:int}";
    let params = extract_parameters_with_format(text);

    assert_eq!(params.get("price"), Some(&FormatSpecifier::Fixed(2)));
    assert_eq!(params.get("count"), Some(&FormatSpecifier::Int));
}

#[test]
fn test_extract_multiple_same_param() {
    let text = "Value: {count:int}, Again: {count:int}";
    let params = extract_parameters_with_format(text);

    // Should only have one entry (last one wins)
    assert_eq!(params.len(), 1);
    assert_eq!(params.get("count"), Some(&FormatSpecifier::Int));
}

#[test]
fn test_extract_no_parameters() {
    let text = "No parameters here";
    let params = extract_parameters_with_format(text);

    assert_eq!(params.len(), 0);
}

#[test]
fn test_extract_empty_braces() {
    let text = "Empty: {}";
    let params = extract_parameters_with_format(text);

    assert_eq!(params.len(), 0); // Empty braces are ignored
}

#[test]
fn test_extract_nested_braces() {
    let text = "Nested: {outer{inner}}";
    let params = extract_parameters_with_format(text);

    // The parser will extract parameters from nested braces
    // This is edge case behavior - nested braces are not standard
    // In practice, this would be invalid syntax
    // Just verify it doesn't crash
    let _ = params; // Use the variable to avoid unused warning
}

#[test]
fn test_extract_all_specifier_types() {
    let text = "Int: {a:int}, Fixed: {b:fixed(3)}, Num: {c:num}, DateTime: {d:datetime}, Translate: {e:translate}, None: {f}";
    let params = extract_parameters_with_format(text);

    assert_eq!(params.len(), 6);
    assert_eq!(params.get("a"), Some(&FormatSpecifier::Int));
    assert_eq!(params.get("b"), Some(&FormatSpecifier::Fixed(3)));
    assert_eq!(params.get("c"), Some(&FormatSpecifier::Num));
    assert_eq!(params.get("d"), Some(&FormatSpecifier::DateTime));
    assert_eq!(params.get("e"), Some(&FormatSpecifier::Translate));
    assert_eq!(params.get("f"), Some(&FormatSpecifier::Unformatted));
}

#[test]
fn test_generate_format_code_int() {
    let code = generate_format_code("count", &FormatSpecifier::Int);
    assert!(code.contains("math.floor"));
    assert!(code.contains("tonumber"));
    assert!(code.contains("params.count"));
}

#[test]
fn test_generate_format_code_fixed() {
    let code = generate_format_code("price", &FormatSpecifier::Fixed(2));
    assert!(code.contains("string.format"));
    assert!(code.contains("%.2f"));
    assert!(code.contains("params.price"));
}

#[test]
fn test_generate_format_code_num() {
    let code = generate_format_code("value", &FormatSpecifier::Num);
    assert!(code.contains("tostring"));
    assert!(code.contains("params.value"));
}

#[test]
fn test_generate_format_code_datetime() {
    let code = generate_format_code("date", &FormatSpecifier::DateTime);
    assert!(code.contains("DateTime"));
    assert!(code.contains("FormatLocalTime"));
    assert!(code.contains("params.date"));
}

#[test]
fn test_generate_format_code_translate() {
    let code = generate_format_code("label", &FormatSpecifier::Translate);
    assert!(code.contains("FormatByKey"));
    assert!(code.contains("params.label"));
}

#[test]
fn test_generate_format_code_none() {
    let code = generate_format_code("name", &FormatSpecifier::Unformatted);
    assert_eq!(code, "");
}

#[test]
fn specifier_edge_cases() {
    assert_eq!(parse_format_specifier("p:fixed(+3)"), ("p".to_string(), FormatSpecifier::Fixed(3)));
    assert_eq!(parse_format_specifier("p:fixed()"), ("p".to_string(), FormatSpecifier::Fixed(2)));
    assert_eq!(parse_format_specifier("p:fixed("), ("p".to_string(), FormatSpecifier::Unformatted));
    assert_eq!(parse_format_specifier("a:b:int"), ("a".to_string(), FormatSpecifier::Unformatted));
    assert_eq!(parse_format_specifier("\u{3000}x\t"), ("x".to_string(), FormatSpecifier::Unformatted));
}

#[test]
fn later_parameter_replaces_earlier() {
    let params = extract_parameters_with_format("{n:int} {n:num} {m}");
    assert_eq!(params.len(), 2);
    assert_eq!(params.get("n"), Some(&FormatSpecifier::Num));
    assert_eq!(params.get("m"), Some(&FormatSpecifier::Unformatted));
    assert_eq!(params.get("x"), None);
}

#[test]
fn format_code_is_exact() {
    assert_eq!(
        generate_format_code("p", &FormatSpecifier::Fixed(3)),
        "params.p = string.format(\"%.3f\", tonumber(params.p) or 0)"
    );
    assert_eq!(
        generate_format_code("c", &FormatSpecifier::Int),
        "params.c = math.floor(tonumber(params.c) or 0)"
    );
}

