use simple_gl::{
    build_shader_program, compile, link, CompiledShader, CustomError, GraphicsApi, ProgramId,
    Stage,
};

/// A scripted graphics backend: answers status queries from fixed flags
/// and records every call that matters for resource handling.
struct MockGl {
    compile_ok: bool,
    link_ok: bool,
    shader_log: String,
    program_log: String,
    next_id: u32,
    created_shaders: Vec<u32>,
    deleted_shaders: Vec<u32>,
    attached: Vec<(u32, u32)>,
    linked: Vec<u32>,
    validated: Vec<u32>,
    sources: Vec<(u32, String)>,
}

impl MockGl {
    fn new(compile_ok: bool, link_ok: bool) -> Self {
        MockGl {
            compile_ok,
            link_ok,
            shader_log: String::new(),
            program_log: String::new(),
            next_id: 0,
            created_shaders: Vec::new(),
            deleted_shaders: Vec::new(),
            attached: Vec::new(),
            linked: Vec::new(),
            validated: Vec::new(),
            sources: Vec::new(),
        }
    }
}

impl GraphicsApi for MockGl {
    fn create_shader(&mut self, _stage: Stage) -> u32 {
        self.next_id += 1;
        self.created_shaders.push(self.next_id);
        self.next_id
    }
    fn shader_source(&mut self, shader: u32, source: &str) {
        self.sources.push((shader, source.to_string()));
    }
    fn compile_shader(&mut self, _shader: u32) {}
    fn get_compile_status(&mut self, _shader: u32) -> bool {
        self.compile_ok
    }
    fn get_shader_info_log(&mut self, _shader: u32) -> String {
        self.shader_log.clone()
    }
    fn delete_shader(&mut self, shader: u32) {
        self.deleted_shaders.push(shader);
    }
    fn create_program(&mut self) -> u32 {
        self.next_id += 100;
        self.next_id
    }
    fn attach_shader(&mut self, program: u32, shader: u32) {
        self.attached.push((program, shader));
    }
    fn link_program(&mut self, program: u32) {
        self.linked.push(program);
    }
    fn validate_program(&mut self, program: u32) {
        self.validated.push(program);
    }
    fn get_link_status(&mut self, _program: u32) -> bool {
        self.link_ok
    }
    fn get_program_info_log(&mut self, _program: u32) -> String {
        self.program_log.clone()
    }
}

#[test]
fn compile_success_returns_tagged_handle() {
    let mut gl = MockGl::new(true, true);
    let c = compile(&mut gl, Stage::Vertex, "void main() {}").unwrap();
    assert_eq!(c.stage, Stage::Vertex);
    assert_eq!(gl.sources.len(), 1);
    assert_eq!(gl.sources[0].1, "void main() {}");
    assert!(gl.deleted_shaders.is_empty());
}

#[test]
fn compile_failure_surfaces_exact_backend_log() {
    let mut gl = MockGl::new(false, true);
    gl.shader_log = "0:1(3): error: syntax error, unexpected IDENTIFIER".to_string();
    let e = compile(&mut gl, Stage::Fragment, "not a shader").unwrap_err();
    match e {
        CustomError::Compilation(log) => {
            assert_eq!(log, "0:1(3): error: syntax error, unexpected IDENTIFIER");
        }
        other => panic!("expected a compilation error, got {:?}", other),
    }
}

#[test]
fn compile_failure_releases_the_stage_object() {
    let mut gl = MockGl::new(false, true);
    gl.shader_log = "bad".to_string();
    let _ = compile(&mut gl, Stage::Vertex, "junk").unwrap_err();
    assert_eq!(gl.created_shaders, gl.deleted_shaders);
}

#[test]
fn link_success_returns_program_handle() {
    let mut gl = MockGl::new(true, true);
    let v = compile(&mut gl, Stage::Vertex, "v").unwrap();
    let f = compile(&mut gl, Stage::Fragment, "f").unwrap();
    let v_id = v.id;
    let f_id = f.id;
    let p = link(&mut gl, vec![v, f]).unwrap();
    assert_eq!(gl.linked, vec![p.0]);
    assert_eq!(gl.validated, vec![p.0]);
    assert_eq!(gl.attached, vec![(p.0, v_id), (p.0, f_id)]);
    assert_eq!(gl.deleted_shaders, vec![v_id, f_id]);
}

#[test]
fn link_failure_surfaces_exact_backend_log_and_still_releases_stages() {
    let mut gl = MockGl::new(true, false);
    gl.program_log = "error: vertex and fragment interfaces do not match".to_string();
    let v = CompiledShader {
        id: 7,
        stage: Stage::Vertex,
    };
    let f = CompiledShader {
        id: 8,
        stage: Stage::Fragment,
    };
    let e = link(&mut gl, vec![v, f]).unwrap_err();
    match e {
        CustomError::Link(log) => {
            assert_eq!(log, "error: vertex and fragment interfaces do not match");
        }
        other => panic!("expected a link error, got {:?}", other),
    }
    assert_eq!(gl.deleted_shaders, vec![7, 8]);
}

#[test]
fn link_succeeds_iff_backend_validation_passes() {
    let mut ok_gl = MockGl::new(true, true);
    assert!(link(
        &mut ok_gl,
        vec![CompiledShader {
            id: 1,
            stage: Stage::Vertex
        }]
    )
    .is_ok());
    let mut bad_gl = MockGl::new(true, false);
    assert!(link(
        &mut bad_gl,
        vec![CompiledShader {
            id: 1,
            stage: Stage::Vertex
        }]
    )
    .is_err());
}

#[test]
fn build_shader_program_composes_the_pipeline() {
    let mut gl = MockGl::new(true, true);
    let src = "#shader vertex\nv body\n#shader fragment\nf body\n";
    let p: ProgramId = build_shader_program(&mut gl, src).unwrap();
    assert_eq!(gl.linked, vec![p.0]);
    assert_eq!(gl.sources.len(), 2);
    assert_eq!(gl.sources[0].1, "v body\n");
    assert_eq!(gl.sources[1].1, "f body\n");
}

#[test]
fn build_shader_program_rejects_malformed_source_before_any_backend_call() {
    let mut gl = MockGl::new(true, true);
    let e = build_shader_program(&mut gl, "stray\n#shader vertex\nv\n").unwrap_err();
    assert!(matches!(e, CustomError::MalformedShaderSource));
    assert!(gl.created_shaders.is_empty());
    assert!(gl.sources.is_empty());
}

#[test]
fn build_shader_program_short_circuits_on_compile_failure() {
    let mut gl = MockGl::new(false, true);
    gl.shader_log = "no".to_string();
    let src = "#shader vertex\nv\n#shader fragment\nf\n";
    let e = build_shader_program(&mut gl, src).unwrap_err();
    assert!(matches!(e, CustomError::Compilation(_)));
    assert!(gl.linked.is_empty());
}
