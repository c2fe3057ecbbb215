use gl_core::gl::{buffer_data, Buffer, BufferType, GlContext, ShaderType, VertexArray};

const GL_STATIC_DRAW: u32 = 0x88E4;

#[test]
fn upload_round_trip_stores_exact_byte_count() {
    let mut gl = GlContext::new();
    let vbo = Buffer::new(&mut gl).expect("create buffer");
    vbo.bind(&mut gl, BufferType::Array);
    let bytes: Vec<u8> = (0u8..36).collect();
    buffer_data(&mut gl, BufferType::Array, &bytes, GL_STATIC_DRAW);
    assert_eq!(vbo.stored_size(&gl), 36);
    assert_eq!(gl.buffers[0].data, bytes);
}

#[test]
fn upload_replaces_previous_contents() {
    let mut gl = GlContext::new();
    let vbo = Buffer::new(&mut gl).expect("create buffer");
    vbo.bind(&mut gl, BufferType::Array);
    buffer_data(&mut gl, BufferType::Array, &[1, 2, 3, 4, 5], GL_STATIC_DRAW);
    buffer_data(&mut gl, BufferType::Array, &[9, 9], GL_STATIC_DRAW);
    assert_eq!(vbo.stored_size(&gl), 2);
    assert_eq!(gl.buffers[0].data, vec![9, 9]);
}

#[test]
fn upload_with_no_binding_does_nothing() {
    let mut gl = GlContext::new();
    let vbo = Buffer::new(&mut gl).expect("create buffer");
    buffer_data(&mut gl, BufferType::Array, &[1, 2, 3], GL_STATIC_DRAW);
    assert_eq!(vbo.stored_size(&gl), 0);
}

#[test]
fn upload_targets_the_bound_slot_only() {
    let mut gl = GlContext::new();
    let a = Buffer::new(&mut gl).expect("create buffer");
    let e = Buffer::new(&mut gl).expect("create buffer");
    a.bind(&mut gl, BufferType::Array);
    e.bind(&mut gl, BufferType::ElementArray);
    buffer_data(&mut gl, BufferType::ElementArray, &[7, 7, 7], 0x88E4);
    assert_eq!(a.stored_size(&gl), 0);
    assert_eq!(e.stored_size(&gl), 3);
}

#[test]
fn consecutive_creates_give_distinct_nonzero_handles() {
    let mut gl = GlContext::new();
    let b1 = Buffer::new(&mut gl).expect("create buffer");
    let b2 = Buffer::new(&mut gl).expect("create buffer");
    assert_ne!(b1.0, 0);
    assert_ne!(b2.0, 0);
    assert_ne!(b1.0, b2.0);
    let v1 = VertexArray::new(&mut gl).expect("create vertex array");
    let v2 = VertexArray::new(&mut gl).expect("create vertex array");
    assert_ne!(v1.0, 0);
    assert_ne!(v2.0, 0);
    assert_ne!(v1.0, v2.0);
}

#[test]
fn bind_and_clear_binding_drive_the_slots() {
    let mut gl = GlContext::new();
    let vao = VertexArray::new(&mut gl).expect("create vertex array");
    let vbo = Buffer::new(&mut gl).expect("create buffer");
    vao.bind(&mut gl);
    assert_eq!(gl.bound_vao, vao.0);
    VertexArray::clear_binding(&mut gl);
    assert_eq!(gl.bound_vao, 0);
    vbo.bind(&mut gl, BufferType::Array);
    assert_eq!(gl.bound_array, vbo.0);
    Buffer::clear_binding(&mut gl, BufferType::Array);
    assert_eq!(gl.bound_array, 0);
    assert_eq!(gl.bound_element, 0);
}

#[test]
fn binding_target_constants_match_the_native_values() {
    assert_eq!(BufferType::Array.to_raw(), 0x8892);
    assert_eq!(BufferType::ElementArray.to_raw(), 0x8893);
    assert_eq!(ShaderType::Vertex.to_raw(), 0x8B31);
    assert_eq!(ShaderType::Fragment.to_raw(), 0x8B30);
}
