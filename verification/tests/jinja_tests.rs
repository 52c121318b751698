use rustedflask::jinja::{
    extends_markup, block_markup, expression_markup, inclusion_markup, parse_replace,
    render_template_string, FunctionRegistry, JinjaError, JinjaState, RenderProgress,
};
use rustedflask::strmap::StringMap;

type Registry = FunctionRegistry<fn(Vec<String>) -> String>;

fn no_functions() -> Option<&'static Registry> {
    None
}

#[test]
fn test_jinja_variable() -> Result<(), JinjaError> {
    let template = "{{ variable }}".to_string();
    let mut variables = StringMap::new();
    variables.insert("variable", "works".to_string());
    let rendered = match render_template_string(template, &variables, no_functions()) {
        Err(why) => return Err(why),
        Ok(response) => response,
    };
    assert_eq!(rendered, "works".to_string());
    Ok(())
}

#[test]
fn test_jinja_function_no_args() -> Result<(), JinjaError> {
    fn test_function(_args: Vec<String>) -> String {
        "works".to_string()
    }
    let template = "{{ function() }}".to_string();
    let mut functions: Registry = FunctionRegistry::new();
    functions.insert("function", test_function);
    let rendered = match render_template_string(template, &StringMap::new(), Some(&functions)) {
        Err(why) => return Err(why),
        Ok(response) => response,
    };
    assert_eq!(rendered, "works".to_string());
    Ok(())
}

#[test]
fn test_jinja_function_args() -> Result<(), JinjaError> {
    fn test_function(args: Vec<String>) -> String {
        let mut return_val = args[0].clone();
        return_val.extend(args[1].chars());
        return_val.extend(args[2].chars());
        return_val.extend(args[3].chars());
        return_val
    }
    let template = r#"{{ function("works", "blah","hah", variable) }}"#.to_string();
    let mut functions: Registry = FunctionRegistry::new();
    functions.insert("function", test_function);

    let mut variables = StringMap::new();
    variables.insert("variable", "gah".to_string());
    let rendered = match render_template_string(template, &variables, Some(&functions)) {
        Err(why) => return Err(why),
        Ok(response) => response,
    };
    assert_eq!(rendered, "worksblahhahgah".to_string());
    Ok(())
}

#[test]
fn test_jinja_missing_variable_fails() {
    let template = "{{ missing }}".to_string();
    let result = render_template_string(template, &StringMap::new(), no_functions());
    assert!(matches!(result, Err(JinjaError::NoSuchVariable)));
}

#[test]
fn test_jinja_unclosed_parens_is_syntax_error() {
    let template = "{{ foo( }}".to_string();
    let result = render_template_string(template, &StringMap::new(), no_functions());
    assert!(matches!(result, Err(JinjaError::SyntaxError(_))));
}

#[test]
fn test_jinja_unknown_function_fails() {
    let template = "{{ f() }}".to_string();
    let result = render_template_string(template.clone(), &StringMap::new(), no_functions());
    assert!(matches!(result, Err(JinjaError::NoSuchFunction)));

    let mut functions: Registry = FunctionRegistry::new();
    functions.insert("other", |_args| String::new());
    let result = render_template_string(template, &StringMap::new(), Some(&functions));
    assert!(matches!(result, Err(JinjaError::NoSuchFunction)));
}

#[test]
fn test_jinja_two_expressions() -> Result<(), JinjaError> {
    let mut variables = StringMap::new();
    variables.insert("a", "1".to_string());
    variables.insert("b", "2".to_string());
    let template = format!("{}-{}", expression_markup("a"), expression_markup("b"));
    let rendered = render_template_string(template, &variables, no_functions())?;
    assert_eq!(rendered, "1-2".to_string());
    Ok(())
}

#[test]
fn test_parse_replace_bare_variable() {
    let variables = StringMap::new();
    let parsed = parse_replace("variable", &variables).unwrap();
    assert_eq!(parsed.0, false);
    assert_eq!(parsed.1, String::new());
    assert!(parsed.2.is_empty());
}

#[test]
fn test_parse_replace_argument_order() {
    let mut variables = StringMap::new();
    variables.insert("v", "c".to_string());
    let parsed = parse_replace(r#"function("a", "b", v)"#, &variables).unwrap();
    assert_eq!(parsed.0, true);
    assert_eq!(parsed.1, "function".to_string());
    assert_eq!(parsed.2, vec!["a".to_string(), "b".to_string(), "c".to_string()]);
}

#[test]
fn test_parse_replace_unclosed_literal() {
    let variables = StringMap::new();
    let parsed = parse_replace(r#"f("a"#, &variables);
    assert!(matches!(parsed, Err(JinjaError::SyntaxError(_))));
}

#[test]
fn test_stateless_render_resolves_no_files() {
    let template = format!("{}{}", extends_markup("parent"), block_markup("x", "C"));
    let result = render_template_string(template, &StringMap::new(), no_functions());
    assert!(matches!(result, Err(JinjaError::NoSuchTemplate)));
}

#[test]
fn test_jinja_inclusion() {
    let mut state = JinjaState::new();
    let template = format!("A{}B", inclusion_markup("partial"));
    let mut reads = 0;
    loop {
        match state.render_template_string(template.clone(), &StringMap::new(), no_functions())
        {
            RenderProgress::NeedsFile(path) => {
                assert_eq!(path, "./templates/partial".to_string());
                reads += 1;
                assert!(reads < 10);
                state.store_file(&path, "CONTENT".to_string());
            },
            RenderProgress::Rendered(s) => {
                assert_eq!(s, "ACONTENTB".to_string());
                break;
            },
            RenderProgress::Failed(e) => panic!("render failed: {:?}", e),
        }
    }
    assert_eq!(reads, 1);
}

#[test]
fn test_jinja_inclusion_is_not_reprocessed() {
    // a spliced file whose content holds a directive: the directive is
    // spliced in verbatim, not resolved in the same pass
    let mut state = JinjaState::new();
    let inner = inclusion_markup("other");
    state.store_file("./templates/partial", inner.clone());
    let template = format!("A{}B", inclusion_markup("partial"));
    match state.render_template_string(template, &StringMap::new(), no_functions()) {
        RenderProgress::Rendered(s) => assert_eq!(s, format!("A{}B", inner)),
        other => panic!("unexpected outcome: {:?}", progress_name(&other)),
    }
}

#[test]
fn test_jinja_inheritance() {
    let mut state = JinjaState::new();
    let parent = format!("X{}Y", block_markup("x", "P"));
    state.store_file("./templates/parent", parent);
    let template = format!("{}{}", extends_markup("parent"), block_markup("x", "C"));
    match state.render_template_string(template, &StringMap::new(), no_functions()) {
        RenderProgress::Rendered(s) => assert_eq!(s, "XCY".to_string()),
        other => panic!("unexpected outcome: {:?}", progress_name(&other)),
    }
}

#[test]
fn test_jinja_inheritance_keeps_unoverridden_blocks() {
    let mut state = JinjaState::new();
    let parent = format!("X{}Y", block_markup("x", "P"));
    state.store_file("./templates/parent", parent.clone());
    let template = format!("{}{}", extends_markup("parent"), block_markup("y", "C"));
    match state.render_template_string(template, &StringMap::new(), no_functions()) {
        RenderProgress::Rendered(s) => assert_eq!(s, parent),
        other => panic!("unexpected outcome: {:?}", progress_name(&other)),
    }
}

#[test]
fn test_jinja_cache_idempotence() {
    let mut state = JinjaState::new();
    let template = format!("A{}B", inclusion_markup("partial"));
    let mut reads = 0;
    let first;
    loop {
        match state.render_template_string(template.clone(), &StringMap::new(), no_functions())
        {
            RenderProgress::NeedsFile(path) => {
                reads += 1;
                assert!(reads < 10);
                state.store_file(&path, "CONTENT".to_string());
            },
            RenderProgress::Rendered(s) => {
                first = s;
                break;
            },
            RenderProgress::Failed(e) => panic!("render failed: {:?}", e),
        }
    }
    assert_eq!(reads, 1);
    // the second render is answered from the cache alone: no further
    // file is asked for, and the output is identical
    match state.render_template_string(template, &StringMap::new(), no_functions()) {
        RenderProgress::Rendered(s) => assert_eq!(s, first),
        other => panic!("unexpected outcome: {:?}", progress_name(&other)),
    }
    assert_eq!(reads, 1);
}

#[test]
fn test_render_template_uses_cache() {
    let mut state = JinjaState::new();
    match state.render_template("page", &StringMap::new(), no_functions()) {
        RenderProgress::NeedsFile(path) => assert_eq!(path, "./templates/page".to_string()),
        other => panic!("unexpected outcome: {:?}", progress_name(&other)),
    }
    state.store_file("./templates/page", "hello".to_string());
    match state.render_template("page", &StringMap::new(), no_functions()) {
        RenderProgress::Rendered(s) => assert_eq!(s, "hello".to_string()),
        other => panic!("unexpected outcome: {:?}", progress_name(&other)),
    }
}

#[test]
fn test_jinja_block_newline_trimming() {
    // one newline directly after the block head and one directly before
    // its end marker are not part of the override's content
    let mut state = JinjaState::new();
    let parent = format!("A{}B", block_markup("x", "P"));
    state.store_file("./templates/parent", parent);
    let template = format!("{}{}", extends_markup("parent"), block_markup("x", "\nC\n"));
    match state.render_template_string(template, &StringMap::new(), no_functions()) {
        RenderProgress::Rendered(s) => assert_eq!(s, "ACB".to_string()),
        other => panic!("unexpected outcome: {:?}", progress_name(&other)),
    }
}

#[test]
fn test_markup_builders() {
    assert_eq!(expression_markup("name"), "{{ name }}".to_string());
    assert_eq!(extends_markup("base"), "{% extends \"base\" %}".to_string());
    assert_eq!(
        block_markup("x", "body"),
        "{% block x %}body{% endblock %}".to_string()
    );
    assert_eq!(inclusion_markup("part").len(), "{% ".len() + "xxxxxxx \"part\" %}".len());
    assert!(inclusion_markup("part").ends_with("\"part\" %}"));
}

fn progress_name(p: &RenderProgress) -> &'static str {
    match p {
        RenderProgress::Rendered(_) => "rendered",
        RenderProgress::NeedsFile(_) => "needs a file",
        RenderProgress::Failed(_) => "failed",
    }
}
