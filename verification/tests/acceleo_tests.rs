use artop::emf_acceleo::m2t_engine::{render, render_named};
use artop::emf_acceleo::mtl_parser::parse_templates;
use artop::emf_acceleo::template::{
    strip_comments, substitute, DeclKind, TemplateFile, TemplateParam, ValueContext, Visibility,
};

#[test]
fn parses_template_decl() {
    let src = "[template public genClass(a : EClass)]\nHello\n[/template]";
    let file = parse_templates(src).expect("parse ok");
    assert_eq!(file.declarations.len(), 1);
    let d = &file.declarations[0];
    assert_eq!(d.kind, DeclKind::Template);
    assert_eq!(d.name, "genClass");
    assert!(d.is_public());
    assert_eq!(d.params.len(), 1);
    assert_eq!(d.params[0].name, "a");
    assert_eq!(d.params[0].ty, "EClass");
    assert_eq!(d.body, "\nHello\n");
}

#[test]
fn parses_query_decl() {
    let src = "[query public name(e : EObject) : String = 'x'/]";
    let file = parse_templates(src).expect("parse ok");
    let d = &file.declarations[0];
    assert_eq!(d.kind, DeclKind::Query);
    assert_eq!(d.name, "name");
    assert_eq!(d.params.len(), 1);
}

#[test]
fn skips_module_and_import() {
    let src = "[module bms('/example')/]\n[import other::file /]\n[comment hi /]\n[template private done()]\nx\n[/template]";
    let file = parse_templates(src).expect("parse ok");
    assert_eq!(file.declarations.len(), 1);
    assert_eq!(file.declarations[0].visibility, Visibility::Private);
}

#[test]
fn entry_points_are_public_noarg() {
    let src = "[template public a()]A[/template]\n[template protected b()]B[/template]\n[template public c(x:Int)]C[/template]";
    let file = parse_templates(src).expect("parse ok");
    assert_eq!(file.entry_points().len(), 1);
    assert_eq!(file.entry_points()[0].name, "a");
}

#[test]
fn context_binds_and_looks_up() {
    let mut ctx = ValueContext::new();
    ctx.bind("name", "Alice").bind_fmt("age", 30);
    assert_eq!(ctx.get("name"), Some("Alice"));
    assert_eq!(ctx.get("age"), Some("30"));
    assert!(ctx.contains("name"));
    assert_eq!(ctx.len(), 2);
}

#[test]
fn substitution_replaces_vars() {
    let mut ctx = ValueContext::new();
    ctx.bind("greeting", "Hello");
    let out = substitute("[$greeting], world!", &ctx);
    assert_eq!(out, "Hello, world!");
}

#[test]
fn missing_var_yields_empty() {
    let ctx = ValueContext::new();
    assert_eq!(substitute("[$unknown]", &ctx), "");
}

#[test]
fn comments_stripped() {
    let body = "a[comment ignore this/]b";
    assert_eq!(strip_comments(body), "ab");
}

#[test]
fn renders_entry_point() {
    let src = "[template public root()]\nHello [$name/]\n[/template]";
    let file = parse_templates(src).expect("parse");
    let mut ctx = ValueContext::new();
    ctx.bind("name", "world");
    assert_eq!(render(&file, &ctx).unwrap(), "\nHello world\n");
}

#[test]
fn renders_condition() {
    let src = "[template public root()][if $flag]YES[else/]NO[/if][/template]";
    let file = parse_templates(src).expect("parse");
    let mut ctx = ValueContext::new();
    ctx.bind("flag", "1");
    assert_eq!(render(&file, &ctx).unwrap(), "YES");
    ctx.bind("flag", "");
    assert_eq!(render(&file, &ctx).unwrap(), "NO");
}

#[test]
fn renders_loop() {
    let src = "[template public root()][for $x : $items]([$x]);
[/for][/template]";
    let file = parse_templates(src).expect("parse");
    let mut ctx = ValueContext::new();
    ctx.bind("items", "a b c");
    let out = render(&file, &ctx).unwrap();
    assert!(out.contains("(a);"));
    assert!(out.contains("(c);"));
}

#[test]
fn renders_named_template() {
    let src = "[template public a()]AA[/template]";
    let file = parse_templates(src).expect("parse");
    let ctx = ValueContext::new();
    assert_eq!(render_named(&file, "a", &ctx).unwrap(), "AA");
}

#[test]
fn missing_entry_is_error() {
    let file = TemplateFile::default();
    let ctx = ValueContext::new();
    assert!(render(&file, &ctx).is_err());
}

// Own tests.

#[test]
fn missing_end_template_is_error() {
    let e = parse_templates("[template public a()]never closed").unwrap_err();
    assert_eq!(e.line, 1);
    assert_eq!(e.message, "missing closing [/template]");
    assert_eq!(e.to_string(), "line 1: missing closing [/template]");
}

#[test]
fn parse_records_lines_params_and_query_body() {
    let src = "[template public t(a : A, b, : C)]\nx\ny\n[/template]\n[query private q(e : E) : String = e.name /]";
    let file = parse_templates(src).unwrap();
    assert_eq!(file.declarations.len(), 2);
    let t = &file.declarations[0];
    assert_eq!(t.params, vec![TemplateParam::new("a", "A"), TemplateParam::new("b", "")]);
    assert_eq!(t.line, 1);
    let q = &file.declarations[1];
    assert_eq!(q.visibility, Visibility::Private);
    assert_eq!(q.body, "e.name");
    assert_eq!(q.line, 5);
    assert_eq!(file.get("q").unwrap().kind, DeclKind::Query);
    assert!(file.get("zz").is_none());
}

#[test]
fn render_named_errors() {
    let file = parse_templates("[query public q() = 1/]").unwrap();
    let ctx = ValueContext::new();
    assert_eq!(render_named(&file, "nope", &ctx).unwrap_err().message, "unknown template `nope`");
    assert_eq!(render_named(&file, "q", &ctx).unwrap_err().to_string(), "`q` is not a template");
}

#[test]
fn if_without_end_is_error() {
    let file = parse_templates("[template public r()][if $x]A[/template]").unwrap();
    let ctx = ValueContext::new();
    assert_eq!(render(&file, &ctx).unwrap_err().message, "missing `[/if]`");
}

#[test]
fn loop_over_unbound_list_renders_nothing() {
    let file = parse_templates("[template public r()]<[for $x : $none]X[/for]>[/template]").unwrap();
    let ctx = ValueContext::new();
    assert_eq!(render(&file, &ctx).unwrap(), "<>");
}

#[test]
fn loop_binds_each_word() {
    let file = parse_templates("[template public r()][for $x : $xs][$x/],[/for][/template]").unwrap();
    let mut ctx = ValueContext::new();
    ctx.bind("xs", "  one\ttwo three ");
    assert_eq!(render(&file, &ctx).unwrap(), "one,two,three,");
}

#[test]
fn unknown_tags_and_text_copied() {
    let file = parse_templates("[template public r()]a[foo]b[/if]c[$v]d[/template]").unwrap();
    let mut ctx = ValueContext::new();
    ctx.bind("v", "V");
    assert_eq!(render(&file, &ctx).unwrap(), "a[foo]b[/if]cVd");
}

#[test]
fn unterminated_tag_copied_once() {
    let file = parse_templates("[template public r()]x[abc[/template]").unwrap();
    let ctx = ValueContext::new();
    assert_eq!(render(&file, &ctx).unwrap(), "x[abc");
}

#[test]
fn comments_removed_before_rendering() {
    let file = parse_templates("[template public r()]a[comment note/]b[/template]").unwrap();
    let ctx = ValueContext::new();
    assert_eq!(render(&file, &ctx).unwrap(), "ab");
}

#[test]
fn strip_comments_keeps_unterminated() {
    assert_eq!(strip_comments("x[comment never"), "x[comment never");
}

#[test]
fn substitute_keeps_non_variable_brackets() {
    let mut ctx = ValueContext::new();
    ctx.bind("a", "1");
    assert_eq!(substitute("[x] [ $a ] [", &ctx), "[x] 1 [");
}

#[test]
fn context_rebind_replaces_and_bindings_sorted() {
    let mut ctx = ValueContext::new();
    ctx.bind("b", "2").bind("a", "1").bind("b", "3");
    assert_eq!(ctx.get("b"), Some("3"));
    assert_eq!(ctx.len(), 2);
    assert_eq!(
        ctx.bindings(),
        vec![("a".to_string(), "1".to_string()), ("b".to_string(), "3".to_string())]
    );
    let copy = ctx.clone();
    assert_eq!(copy.get("a"), Some("1"));
    assert!(!ctx.is_empty());
    assert!(ValueContext::default().is_empty());
}

#[test]
fn query_body_is_the_expression_after_equals() {
    let file = parse_templates("[query public name(e : EObject) : String = 'x'/]").unwrap();
    assert_eq!(file.declarations[0].body, "'x'");
    assert_eq!(file.declarations[0].line, 1);
}

#[test]
fn declaration_line_is_its_header_line() {
    let src = "[template public a()]A[/template]\n[template public b()]\nB\n[/template]";
    let file = parse_templates(src).unwrap();
    assert_eq!(file.declarations.len(), 2);
    assert_eq!(file.declarations[0].line, 1);
    assert_eq!(file.declarations[1].line, 2);
}

#[test]
fn strip_comments_removes_block_comments() {
    assert_eq!(strip_comments("a[/* gone */]b[comment x/]c"), "abc");
    assert_eq!(strip_comments("a[/* never closed"), "a[/* never closed");
}
