use crate::error::CustomError;
use crate::parser::{parse_shader, parse_spec, ShaderSource};
use vstd::prelude::*;

verus! {

/// The two shader stages a program is linked from.
#[derive(Clone, Copy, Debug, PartialEq, Eq, Structural)]
pub enum Stage {
    Vertex,
    Fragment,
}

/// One compiled shader stage: an opaque backend handle tagged with its
/// stage. Consumed when a program is linked from it.
#[derive(Clone, Copy, Debug, PartialEq, Eq, Structural)]
pub struct CompiledShader {
    pub id: u32,
    pub stage: Stage,
}

/// An opaque handle to a linked, validated, executable program.
#[derive(Clone, Copy, Debug, PartialEq, Eq, Structural)]
pub struct ProgramId(pub u32);

/// The capability set the shader pipeline consumes from an immediate-mode
/// graphics backend: object creation, source upload, compile and link,
/// status and diagnostic-log queries, and object deletion.
///
/// What each call returns is decided by the backend alone, so no method
/// carries a contract: the pipeline states what it does with every
/// possible answer.
pub trait GraphicsApi: Sized {
    /// Create a shader object for the given stage and return its handle.
    fn create_shader(&mut self, stage: Stage) -> u32;

    /// Upload source text to a shader object.
    fn shader_source(&mut self, shader: u32, source: &str);

    /// Compile a shader object.
    fn compile_shader(&mut self, shader: u32);

    /// Whether the last compilation of the shader object succeeded.
    fn get_compile_status(&mut self, shader: u32) -> bool;

    /// The diagnostic log of the shader object.
    fn get_shader_info_log(&mut self, shader: u32) -> String;

    /// Delete a shader object.
    fn delete_shader(&mut self, shader: u32);

    /// Create a program object and return its handle.
    fn create_program(&mut self) -> u32;

    /// Attach a compiled shader object to a program object.
    fn attach_shader(&mut self, program: u32, shader: u32);

    /// Link a program object from its attached shader objects.
    fn link_program(&mut self, program: u32);

    /// Validate a linked program object.
    fn validate_program(&mut self, program: u32);

    /// Whether the last link of the program object succeeded.
    fn get_link_status(&mut self, program: u32) -> bool;

    /// The diagnostic log of the program object.
    fn get_program_info_log(&mut self, program: u32) -> String;
}

/// Decides what `compile` returns once the backend has answered: success
/// yields exactly the tagged handle, and failure surfaces exactly the
/// backend's diagnostic log, never a silent success.
pub fn compile_outcome(stage: Stage, id: u32, status: bool, log: String) -> (r: Result<
    CompiledShader,
    CustomError,
>)
    ensures
        status ==> r == Ok::<CompiledShader, CustomError>(CompiledShader { id, stage }),
        !status ==> r == Err::<CompiledShader, CustomError>(CustomError::Compilation(log)),
{
    if status {
        Ok(CompiledShader { id, stage })
    } else {
        Err(CustomError::Compilation(log))
    }
}

/// Decides what `link` returns once the backend has answered: the link
/// fails if and only if the backend reported failure, in which case
/// exactly its diagnostic log is surfaced; otherwise the program handle
/// is returned.
pub fn link_outcome(program: u32, status: bool, log: String) -> (r: Result<ProgramId, CustomError>)
    ensures
        status ==> r == Ok::<ProgramId, CustomError>(ProgramId(program)),
        !status ==> r == Err::<ProgramId, CustomError>(CustomError::Link(log)),
{
    if status {
        Ok(ProgramId(program))
    } else {
        Err(CustomError::Link(log))
    }
}

/// Compiles one shader stage: creates a stage object, uploads the source,
/// compiles, and queries the status. On failure the backend's diagnostic
/// log is returned as the error and the stage object is released, so no
/// exit path leaks it.
pub fn compile<G: GraphicsApi>(gl: &mut G, stage: Stage, source: &str) -> (r: Result<
    CompiledShader,
    CustomError,
>)
    ensures
        r matches Ok(c) ==> c.stage == stage,
        r matches Err(e) ==> e matches CustomError::Compilation(_),
{
    let id = gl.create_shader(stage);
    gl.shader_source(id, source);
    gl.compile_shader(id);
    let status = gl.get_compile_status(id);
    if status {
        compile_outcome(stage, id, true, String::new())
    } else {
        let log = gl.get_shader_info_log(id);
        gl.delete_shader(id);
        compile_outcome(stage, id, false, log)
    }
}

/// Links a program from compiled stages: creates a program object,
/// attaches every stage, links and validates, then releases every stage
/// object whatever the outcome, since stage handles are single-use. On
/// failure the backend's diagnostic log is returned as the error.
pub fn link<G: GraphicsApi>(gl: &mut G, shaders: Vec<CompiledShader>) -> (r: Result<
    ProgramId,
    CustomError,
>)
    ensures
        r matches Err(e) ==> e matches CustomError::Link(_),
{
    let program = gl.create_program();
    let mut i: usize = 0;
    while i < shaders.len()
        decreases shaders.len() - i,
    {
        gl.attach_shader(program, shaders[i].id);
        i = i + 1;
    }
    gl.link_program(program);
    gl.validate_program(program);
    let mut j: usize = 0;
    while j < shaders.len()
        decreases shaders.len() - j,
    {
        gl.delete_shader(shaders[j].id);
        j = j + 1;
    }
    let status = gl.get_link_status(program);
    if status {
        link_outcome(program, true, String::new())
    } else {
        let log = gl.get_program_info_log(program);
        link_outcome(program, false, log)
    }
}

/// Builds a full shader program from one shader source text: parse, then
/// compile the vertex stage, then the fragment stage, then link the two.
/// Any failing step short-circuits the remainder and its error is
/// returned unchanged; no partial program is ever returned.
pub fn build_shader_program<G: GraphicsApi>(gl: &mut G, source_text: &str) -> (r: Result<
    ProgramId,
    CustomError,
>)
    ensures
        r == Err::<ProgramId, CustomError>(CustomError::MalformedShaderSource) <==> parse_spec(
            source_text@,
        ) is Err,
        r matches Err(e) ==> (e matches CustomError::MalformedShaderSource || e matches
            CustomError::Compilation(_) || e matches CustomError::Link(_)),
{
    let parsed = parse_shader(source_text);
    let src: ShaderSource = match parsed {
        Ok(s) => s,
        Err(e) => {
            return Err(e);
        },
    };
    let v_shader = match compile(gl, Stage::Vertex, src.vertex.as_str()) {
        Ok(c) => c,
        Err(e) => {
            return Err(e);
        },
    };
    let f_shader = match compile(gl, Stage::Fragment, src.fragment.as_str()) {
        Ok(c) => c,
        Err(e) => {
            return Err(e);
        },
    };
    let shaders = vec![v_shader, f_shader];
    link(gl, shaders)
}

} // verus!
