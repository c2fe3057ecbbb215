use gl_core::gl::{Buffer, GlContext, Shader, ShaderProgram, ShaderType, Verdict};

const VERT_SRC: &str = "#version 330 core\nlayout (location = 0) in vec3 pos;\nvoid main() { gl_Position = vec4(pos, 1.0); }\n";
const FRAG_SRC: &str = "#version 330 core\nout vec4 final_color;\nvoid main() { final_color = vec4(1.0, 0.5, 0.2, 1.0); }\n";

fn ok_verdict() -> Verdict {
    Verdict {
        ok: true,
        log: String::new(),
    }
}

fn fail_verdict(log: &str) -> Verdict {
    Verdict {
        ok: false,
        log: log.to_string(),
    }
}

fn exhausted_context() -> GlContext {
    GlContext {
        next_handle: u32::MAX,
        vaos: Vec::new(),
        buffers: Vec::new(),
        shaders: Vec::new(),
        programs: Vec::new(),
        bound_vao: 0,
        bound_array: 0,
        bound_element: 0,
        active_program: 0,
    }
}

fn shader_record(gl: &GlContext, handle: u32) -> &gl_core::gl::ShaderRec {
    gl.shaders
        .iter()
        .find(|r| r.handle == handle)
        .expect("shader record missing")
}

fn program_record(gl: &GlContext, handle: u32) -> &gl_core::gl::ProgramRec {
    gl.programs
        .iter()
        .find(|r| r.handle == handle)
        .expect("program record missing")
}

#[test]
fn build_success_links_and_deletes_shaders() {
    let mut gl = GlContext::new();
    let p = ShaderProgram::from_vert_frag(
        &mut gl,
        VERT_SRC,
        FRAG_SRC,
        ok_verdict(),
        ok_verdict(),
        ok_verdict(),
    )
    .expect("build should succeed");
    assert_ne!(p.0, 0);
    assert!(p.link_success(&gl));
    let prec = program_record(&gl, p.0);
    assert!(prec.linked);
    assert!(!prec.deleted);
    assert_eq!(prec.attached, vec![p.0 + 1, p.0 + 2]);
    for h in [p.0 + 1, p.0 + 2] {
        assert!(shader_record(&gl, h).deleted);
    }
}

#[test]
fn vertex_compile_failure_is_prefixed() {
    let mut gl = GlContext::new();
    let err = ShaderProgram::from_vert_frag(
        &mut gl,
        "#version 330 core\nvoid main( {}\n",
        FRAG_SRC,
        fail_verdict("0:2(12): error: syntax error, unexpected '{'"),
        ok_verdict(),
        ok_verdict(),
    )
    .expect_err("build should fail");
    assert!(err.starts_with("Vertex Compile Error: "));
    assert_eq!(
        err,
        "Vertex Compile Error: 0:2(12): error: syntax error, unexpected '{'"
    );
    // no program is left bound as current
    assert_eq!(gl.active_program, 0);
}

#[test]
fn fragment_compile_failure_is_prefixed() {
    let mut gl = GlContext::new();
    let err = ShaderProgram::from_vert_frag(
        &mut gl,
        VERT_SRC,
        "#version 330 core\nvoid main() { bad }\n",
        ok_verdict(),
        fail_verdict("0:2(15): error: `bad' undeclared"),
        ok_verdict(),
    )
    .expect_err("build should fail");
    assert!(err.starts_with("Fragment Compile Error: "));
    assert_eq!(err, "Fragment Compile Error: 0:2(15): error: `bad' undeclared");
}

#[test]
fn link_failure_is_prefixed() {
    let mut gl = GlContext::new();
    let err = ShaderProgram::from_vert_frag(
        &mut gl,
        VERT_SRC,
        FRAG_SRC,
        ok_verdict(),
        ok_verdict(),
        fail_verdict("error: interface mismatch between shader stages"),
    )
    .expect_err("build should fail");
    assert!(err.starts_with("Program Link Error: "));
    assert_eq!(
        err,
        "Program Link Error: error: interface mismatch between shader stages"
    );
}

#[test]
fn failed_build_deletes_created_resources() {
    let mut gl = GlContext::new();
    let err = ShaderProgram::from_vert_frag(
        &mut gl,
        VERT_SRC,
        FRAG_SRC,
        ok_verdict(),
        fail_verdict("bad fragment"),
        ok_verdict(),
    )
    .expect_err("build should fail");
    assert!(err.starts_with("Fragment Compile Error: "));
    // the program and both shaders created by the call are marked deleted
    for rec in &gl.programs {
        assert!(rec.deleted);
    }
    for rec in &gl.shaders {
        assert!(rec.deleted);
    }
}

#[test]
fn program_allocation_failure_message() {
    let mut gl = exhausted_context();
    let err = ShaderProgram::from_vert_frag(
        &mut gl,
        VERT_SRC,
        FRAG_SRC,
        ok_verdict(),
        ok_verdict(),
        ok_verdict(),
    )
    .expect_err("allocation must fail");
    assert_eq!(err, "Couldn't allocate a program");
}

#[test]
fn shader_allocation_failure_message() {
    let mut gl = exhausted_context();
    let err = Shader::from_source(&mut gl, ShaderType::Vertex, VERT_SRC, ok_verdict())
        .expect_err("allocation must fail");
    assert_eq!(err, "Couldn't allocate new shader");
    assert!(Shader::new(&mut gl, ShaderType::Fragment).is_none());
    assert!(ShaderProgram::new(&mut gl).is_none());
    assert!(Buffer::new(&mut gl).is_none());
    assert!(gl_core::gl::VertexArray::new(&mut gl).is_none());
}

#[test]
fn from_source_failure_deletes_shader_and_returns_log() {
    let mut gl = GlContext::new();
    let err = Shader::from_source(
        &mut gl,
        ShaderType::Vertex,
        "broken",
        fail_verdict("unexpected token"),
    )
    .expect_err("compile should fail");
    assert_eq!(err, "unexpected token");
    assert_eq!(gl.shaders.len(), 1);
    assert!(gl.shaders[0].deleted);
    assert_eq!(gl.shaders[0].source, "broken");
}

#[test]
fn set_source_replaces_previous_text() {
    let mut gl = GlContext::new();
    let s = Shader::new(&mut gl, ShaderType::Vertex).expect("create shader");
    s.set_source(&mut gl, "first text");
    s.set_source(&mut gl, "second text");
    s.compile(&mut gl, ok_verdict());
    let rec = shader_record(&gl, s.0);
    assert_eq!(rec.source, "second text");
    assert!(rec.compiled);
    assert!(s.compile_success(&gl));
}

#[test]
fn compile_status_and_log_follow_verdict() {
    let mut gl = GlContext::new();
    let s = Shader::new(&mut gl, ShaderType::Fragment).expect("create shader");
    s.set_source(&mut gl, FRAG_SRC);
    assert!(!s.compile_success(&gl));
    s.compile(&mut gl, fail_verdict("warning then error"));
    assert!(!s.compile_success(&gl));
    assert_eq!(s.info_log(&gl), "warning then error");
    s.compile(&mut gl, ok_verdict());
    assert!(s.compile_success(&gl));
    assert_eq!(s.info_log(&gl), "");
    s.delete(&mut gl);
    assert!(gl.shaders[0].deleted);
}

#[test]
fn link_status_and_log_follow_verdict() {
    let mut gl = GlContext::new();
    let p = ShaderProgram::new(&mut gl).expect("create program");
    assert!(!p.link_success(&gl));
    p.link_program(&mut gl, fail_verdict("link went wrong"));
    assert!(!p.link_success(&gl));
    assert_eq!(p.info_log(&gl), "link went wrong");
}

#[test]
fn attach_records_shader_handles() {
    let mut gl = GlContext::new();
    let p = ShaderProgram::new(&mut gl).expect("create program");
    let v = Shader::new(&mut gl, ShaderType::Vertex).expect("create shader");
    let f = Shader::new(&mut gl, ShaderType::Fragment).expect("create shader");
    p.attach_shader(&mut gl, &v);
    p.attach_shader(&mut gl, &f);
    assert_eq!(program_record(&gl, p.0).attached, vec![v.0, f.0]);
}

#[test]
fn use_program_sets_active_program() {
    let mut gl = GlContext::new();
    let p = ShaderProgram::new(&mut gl).expect("create program");
    p.use_program(&mut gl);
    assert_eq!(gl.active_program, p.0);
    let q = ShaderProgram::new(&mut gl).expect("create program");
    q.use_program(&mut gl);
    assert_eq!(gl.active_program, q.0);
}

#[test]
fn deleted_program_record_stays_marked() {
    let mut gl = GlContext::new();
    let p = ShaderProgram::new(&mut gl).expect("create program");
    let h = p.0;
    p.use_program(&mut gl);
    p.delete(&mut gl);
    let rec = program_record(&gl, h);
    assert!(rec.deleted);
    // deletion is deferred by the driver: the record remains while in use
    assert_eq!(gl.active_program, h);
}
