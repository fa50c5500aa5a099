use spallcomp::element_compiler::compile_element;
use spallcomp::element_metadata::{
    determine_element_metadata, element_name_valid, find_element_base_class, generate_compiled_element_name,
    ElementType,
};
use spallcomp::errs::FileCompilationError;
use spallcomp::compiler_utils::escape_quotes;
use spallcomp::text_generation::{compile_all_page_routes, compile_page_route};

#[test]
fn invalid_names_are_rejected() {
    let err = determine_element_metadata("1bad", ElementType::Basic).err().unwrap();
    assert_eq!(err, FileCompilationError::InvalidElementName { name: "1bad".to_string() });
    assert!(!element_name_valid(""));
    assert!(!element_name_valid("My-Card"));
    assert!(element_name_valid("Card2"));
}

#[test]
fn base_class_follows_kind_and_name() {
    let root = determine_element_metadata("Root", ElementType::Basic).ok().unwrap();
    assert_eq!(root.element_base_class, "SpallRootElement");
    assert_eq!(root.compiled_element_name, "__SpallCompiledRoot");
    let card = determine_element_metadata("Card", ElementType::Basic).ok().unwrap();
    assert_eq!(card.element_base_class, "SpallElement");
    assert_eq!(find_element_base_class(&ElementType::Page, "Root"), "SpallPage");
    assert_eq!(generate_compiled_element_name("Card"), "__SpallCompiledCard");
}

#[test]
fn page_without_route_fails() {
    let err = compile_element("<title>Home</title><p>hi</p>", "Home", ElementType::Page).err().unwrap();
    assert_eq!(err, FileCompilationError::NoPageRoutes);
}

#[test]
fn page_route_with_parameter() {
    assert_eq!(
        compile_page_route("/users/${id}"),
        "[new SpallStringRouteSection(\"users\"), new SpallPropertyRouteSection(\"id\")]"
    );
    let out = compile_element("<pageroute>/users/${id}</pageroute>", "Users", ElementType::Page).ok().unwrap();
    assert!(out.content.ends_with(
        "SpallRouter.routeList.push([[new SpallStringRouteSection(\"users\"), new SpallPropertyRouteSection(\"id\")],__SpallCompiledUsers]);"
    ));
    assert_eq!(out.content.matches("SpallRouter.routeList.push").count(), 1);
}

#[test]
fn routes_are_one_per_line() {
    let routes = vec!["/a".to_string(), "/".to_string()];
    assert_eq!(
        compile_all_page_routes(&routes, "P"),
        "SpallRouter.routeList.push([[new SpallStringRouteSection(\"a\")],P]);\nSpallRouter.routeList.push([[],P]);"
    );
}

#[test]
fn compiles_basic_element() {
    let out = compile_element("<p>hello</p>", "Card", ElementType::Basic).ok().unwrap();
    assert_eq!(out.element_name, "Card");
    assert_eq!(out.compiled_element_name, "__SpallCompiledCard");
    let expected = "\n        class __SpallCompiledCard extends SpallElement {\n            constructor(id, parentId, spallApp, path) {\n                super('__SpallCompiledCard', id, parentId, spallApp, path);\n            }\n\n            compiledGenerateRenderables() {\n                var __spallRenderables = [];\n__spallRenderables.push(...[new SpallMarkupRenderable(`<p ><span >hello</span></p>`)]);\nreturn __spallRenderables;\n            }\n\n            \n\n            \n        }\n    ";
    assert_eq!(out.content, expected);
}

#[test]
fn compiles_elements_scripts_and_class_body() {
    let source = "<div>~let n = 1;~<Child !count=\"n\" label=\"x\"/></div><script>go() {}</script>";
    let out = compile_element(source, "Card", ElementType::Basic).ok().unwrap();
    assert!(out.content.contains("let n = 1;\n"));
    assert!(out.content.contains(
        "new SpallElementRenderable(\"Child\", __SpallCompiledChild, \"0/1\", { count:() => n,label:() => \"x\" })"
    ));
    assert!(out.content.contains("\n            go() {}\n        }\n    "));
}

#[test]
fn markup_errors_surface() {
    let err = compile_element("<p><span></p>", "Card", ElementType::Basic).err().unwrap();
    assert!(matches!(err, FileCompilationError::MarkupSyntaxError(_)));
}

#[test]
fn compiling_twice_gives_same_text() {
    let source = "<Page><p !onclick=\"this.open()\">hi</p></Page><pageroute>/a/${b}</pageroute><title>T</title>";
    let a = compile_element(source, "Main", ElementType::Page).ok().unwrap();
    let b = compile_element(source, "Main", ElementType::Page).ok().unwrap();
    assert_eq!(a.content, b.content);
    assert!(a.content.contains("return `T`;"));
    assert!(a.content.contains("onclick=\"SpallApp.instance.renderer.getElementById(${this.id}).open()\""));
}

#[test]
fn quotes_are_escaped() {
    assert_eq!(escape_quotes("a`b\\c", '`', '\\'), "a\\`b\\\\c");
}

#[test]
fn literal_text_is_escaped_in_generated_code() {
    assert_eq!(compile_page_route("/say\"hi\""), "[new SpallStringRouteSection(\"say\\\"hi\\\"\")]");
    let source = "<title>a`b</title><pageroute>/</pageroute><Child label=\"q\\\"x\"/>";
    let out = compile_element(source, "Main", ElementType::Page).ok().unwrap();
    assert!(out.content.contains("return `a\\`b`;"));
    assert!(out.content.contains("label:() => \"q\\\\\\\"x\""));
}
