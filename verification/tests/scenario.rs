use gl_core::gl::{
    buffer_data, Buffer, BufferType, GlContext, ShaderProgram, Verdict, VertexArray,
};
use gl_core::util::{slice_to_str, to_str};

const GL_STATIC_DRAW: u32 = 0x88E4;

#[test]
fn end_to_end_triangle_setup() {
    let mut gl = GlContext::new();

    let vao = VertexArray::new(&mut gl).expect("couldn't make a VAO");
    vao.bind(&mut gl);
    let vbo = Buffer::new(&mut gl).expect("couldn't make a VBO");
    vbo.bind(&mut gl, BufferType::Array);

    // three vertices of three floats each, tightly packed
    let verts: [[f32; 3]; 3] = [[-0.5, -0.5, 0.0], [0.5, -0.5, 0.0], [0.0, 0.5, 0.0]];
    let mut bytes: Vec<u8> = Vec::new();
    for v in &verts {
        for c in v {
            bytes.extend_from_slice(&c.to_le_bytes());
        }
    }
    buffer_data(&mut gl, BufferType::Array, &bytes, GL_STATIC_DRAW);
    assert_eq!(vbo.stored_size(&gl), 36);

    let vert_src = "#version 330 core\nlayout (location = 0) in vec3 pos;\nvoid main() { gl_Position = vec4(pos.x, pos.y, pos.z, 1.0); }\n";
    let frag_src = "#version 330 core\nout vec4 final_color;\nvoid main() { final_color = vec4(1.0, 0.5, 0.2, 1.0); }\n";
    let ok = || Verdict {
        ok: true,
        log: String::new(),
    };
    let program = ShaderProgram::from_vert_frag(&mut gl, vert_src, frag_src, ok(), ok(), ok())
        .expect("couldn't build the shader program");
    program.use_program(&mut gl);

    assert!(program.link_success(&gl));
    assert_ne!(vao.0, 0);
    assert_ne!(vbo.0, 0);
    assert_ne!(program.0, 0);
    assert_eq!(gl.active_program, program.0);
}

#[test]
fn to_str_renders_booleans_as_digits() {
    assert_eq!(to_str(true), "1");
    assert_eq!(to_str(false), "0");
}

#[test]
fn slice_to_str_prefixes_an_underscore() {
    assert_eq!(slice_to_str("pos"), "_pos");
    assert_eq!(slice_to_str(""), "_");
}
