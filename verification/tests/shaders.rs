use shader_split::shaders::{ShaderData, ShaderError, ShaderType, TargetPlatform};

fn split(source: &str) -> Result<ShaderData, ShaderError> {
    ShaderData::from_source("test.shader".to_string(), source, TargetPlatform::Other)
}

#[test]
fn splits_vertex_and_fragment_sections() {
    let data = split("#shader vertex\nin vec2 p;\n#shader fragment\nout vec4 c;\n").unwrap();
    assert_eq!(data.vertex_shader.source, "#version 130\nin vec2 p;\n");
    assert_eq!(data.fragment_shader.source, "#version 130\nout vec4 c;\n");
    assert_eq!(data.source_path, "test.shader");
    assert!(matches!(data.vertex_shader.shader_type, ShaderType::Vertex));
    assert!(matches!(
        data.fragment_shader.shader_type,
        ShaderType::Fragment
    ));
}

#[test]
fn drops_lines_before_the_first_directive() {
    let data = split("ignored\n#shader vertex\nfoo;\n").unwrap();
    assert_eq!(data.vertex_shader.source, "#version 130\nfoo;\n");
    assert_eq!(data.fragment_shader.source, "#version 130\n");
}

#[test]
fn fails_on_an_unknown_directive() {
    let r = split("#shader geometry\nvoid main() {}\n");
    assert_eq!(r.err(), Some(ShaderError::UnknownDirective));
}

#[test]
fn fails_on_an_unknown_directive_after_valid_sections() {
    let r = split("#shader vertex\na;\n#shader tessellation\nb;\n");
    assert_eq!(r.err(), Some(ShaderError::UnknownDirective));
}

#[test]
fn fails_when_the_source_is_unreadable() {
    let r = ShaderData::new(
        "does/not/exist.shader".to_string(),
        None,
        TargetPlatform::Other,
    );
    assert_eq!(r.err(), Some(ShaderError::SourceUnreadable));
}

#[test]
fn new_splits_read_contents() {
    let text = "#shader vertex\nin vec2 p;\n".to_string();
    let data = ShaderData::new("a.shader".to_string(), Some(text), TargetPlatform::Other).unwrap();
    assert_eq!(data.vertex_shader.source, "#version 130\nin vec2 p;\n");
    assert_eq!(data.source_path, "a.shader");
}

#[test]
fn concatenates_repeated_sections_of_one_stage() {
    let data = split("#shader vertex\none;\n#shader fragment\nmid;\n#shader vertex\ntwo;\n")
        .unwrap();
    assert_eq!(data.vertex_shader.source, "#version 130\none;\ntwo;\n");
    assert_eq!(data.fragment_shader.source, "#version 130\nmid;\n");
}

#[test]
fn splitting_is_deterministic() {
    let source = "#shader vertex\na;\nb;\n#shader fragment\nc;\n";
    let first = split(source).unwrap();
    let second = split(source).unwrap();
    assert_eq!(first.vertex_shader.source, second.vertex_shader.source);
    assert_eq!(first.fragment_shader.source, second.fragment_shader.source);
}

#[test]
fn outputs_are_the_pragma_line_alone_without_directives() {
    let data = split("only noise\nno directives here\n").unwrap();
    assert_eq!(data.vertex_shader.source, "#version 130\n");
    assert_eq!(data.fragment_shader.source, "#version 130\n");
}

#[test]
fn empty_input_yields_the_pragma_line_alone() {
    let data = split("").unwrap();
    assert_eq!(data.vertex_shader.source, "#version 130\n");
    assert_eq!(data.fragment_shader.source, "#version 130\n");
}

#[test]
fn the_macos_family_gets_its_own_pragma() {
    let data = ShaderData::from_source(
        "t.shader".to_string(),
        "#shader vertex\nx;\n",
        TargetPlatform::MacOs,
    )
    .unwrap();
    assert_eq!(data.vertex_shader.source, "#version 410\nx;\n");
    assert_eq!(data.fragment_shader.source, "#version 410\n");
}

#[test]
fn a_directive_naming_both_stages_selects_vertex() {
    let data = split("#shader fragment or vertex\nwhich;\n").unwrap();
    assert_eq!(data.vertex_shader.source, "#version 130\nwhich;\n");
    assert_eq!(data.fragment_shader.source, "#version 130\n");
}

#[test]
fn a_final_line_without_newline_is_still_a_line() {
    let data = split("#shader fragment\nlast").unwrap();
    assert_eq!(data.fragment_shader.source, "#version 130\nlast\n");
}

#[test]
fn a_trailing_newline_adds_no_empty_line() {
    let data = split("#shader vertex\na;\n").unwrap();
    assert_eq!(data.vertex_shader.source, "#version 130\na;\n");
}

#[test]
fn carriage_returns_stay_inside_their_lines() {
    let data = split("#shader vertex\r\nx;\r\n").unwrap();
    assert_eq!(data.vertex_shader.source, "#version 130\nx;\r\n");
    assert_eq!(data.fragment_shader.source, "#version 130\n");
}

#[test]
fn directive_words_may_stand_anywhere_on_the_line() {
    let data = split("#shader stage: fragment\nf;\n").unwrap();
    assert_eq!(data.fragment_shader.source, "#version 130\nf;\n");
    assert_eq!(data.vertex_shader.source, "#version 130\n");
}
