//! Executable resource wrappers over an explicit GPU-context capability.
//!
//! The driver state that this layer touches — issued handles, binding
//! slots, and the per-object records behind shader compilation and
//! program linking — is carried in a [`GlContext`] value that every
//! operation takes explicitly.  Decisions the driver itself makes
//! (whether a compile or link succeeded, and with what diagnostic log)
//! enter as [`Verdict`] arguments, so each operation's effect is exact
//! for every possible driver answer.

use vstd::prelude::*;
use crate::model::{GlModel, VerdictModel, BufferModel, ShaderModel, ProgramModel};

verus! {

/// The binding target a buffer object is bound to; passed per bind call,
/// never stored on the object.
#[derive(Clone, Copy, Debug, PartialEq, Eq, Structural)]
pub enum BufferType {
    Array,
    ElementArray,
}

impl BufferType {
    /// The native constant for this binding target, produced only at the
    /// boundary where a caller talks to a real driver.
    pub fn to_raw(self) -> (r: u32)
        ensures
            self is Array ==> r == 0x8892u32,
            self is ElementArray ==> r == 0x8893u32,
    {
        match self {
            BufferType::Array => 0x8892,
            BufferType::ElementArray => 0x8893,
        }
    }
}

/// The pipeline stage a shader object compiles for; fixed at creation.
#[derive(Clone, Copy, Debug, PartialEq, Eq, Structural)]
pub enum ShaderType {
    Vertex,
    Fragment,
}

impl ShaderType {
    /// The native constant for this stage, produced only at the boundary
    /// where a caller talks to a real driver.
    pub fn to_raw(self) -> (r: u32)
        ensures
            self is Vertex ==> r == 0x8B31u32,
            self is Fragment ==> r == 0x8B30u32,
    {
        match self {
            ShaderType::Vertex => 0x8B31,
            ShaderType::Fragment => 0x8B30,
        }
    }
}

/// The driver's answer to one compile or link request: a success flag and
/// the (possibly empty) info log that goes with it.
pub struct Verdict {
    pub ok: bool,
    pub log: String,
}

impl View for Verdict {
    type V = VerdictModel;

    open spec fn view(&self) -> VerdictModel {
        VerdictModel { ok: self.ok, log: self.log@ }
    }
}

/// One buffer object's record: its handle and the bytes last uploaded.
#[derive(Debug)]
pub struct BufferRec {
    pub handle: u32,
    pub data: Vec<u8>,
}

impl View for BufferRec {
    type V = BufferModel;

    open spec fn view(&self) -> BufferModel {
        BufferModel { handle: self.handle, data: self.data@ }
    }
}

/// One shader object's record: handle, stage, current source, the last
/// compile outcome, and the deletion mark.
#[derive(Debug)]
pub struct ShaderRec {
    pub handle: u32,
    pub stage: ShaderType,
    pub source: String,
    pub compiled: bool,
    pub ok: bool,
    pub log: String,
    pub deleted: bool,
}

impl View for ShaderRec {
    type V = ShaderModel;

    open spec fn view(&self) -> ShaderModel {
        ShaderModel {
            handle: self.handle,
            stage: self.stage,
            source: self.source@,
            compiled: self.compiled,
            ok: self.ok,
            log: self.log@,
            deleted: self.deleted,
        }
    }
}

/// One program object's record: handle, the handles of attached shaders,
/// the last link outcome, and the deletion mark.
#[derive(Debug)]
pub struct ProgramRec {
    pub handle: u32,
    pub attached: Vec<u32>,
    pub linked: bool,
    pub ok: bool,
    pub log: String,
    pub deleted: bool,
}

impl View for ProgramRec {
    type V = ProgramModel;

    open spec fn view(&self) -> ProgramModel {
        ProgramModel {
            handle: self.handle,
            attached: self.attached@,
            linked: self.linked,
            ok: self.ok,
            log: self.log@,
            deleted: self.deleted,
        }
    }
}

/// The capability value standing for one GPU context: the handle
/// allocator, the per-object records, and the implicit binding slots the
/// driver owns.  Every operation of this layer threads a `GlContext`
/// through explicitly instead of relying on hidden global state.
#[derive(Debug)]
pub struct GlContext {
    pub next_handle: u32,
    pub vaos: Vec<u32>,
    pub buffers: Vec<BufferRec>,
    pub shaders: Vec<ShaderRec>,
    pub programs: Vec<ProgramRec>,
    pub bound_vao: u32,
    pub bound_array: u32,
    pub bound_element: u32,
    pub active_program: u32,
}

impl View for GlContext {
    type V = GlModel;

    open spec fn view(&self) -> GlModel {
        GlModel {
            next_handle: self.next_handle,
            vaos: self.vaos@,
            buffers: self.buffers@.map_values(|b: BufferRec| b@),
            shaders: self.shaders@.map_values(|s: ShaderRec| s@),
            programs: self.programs@.map_values(|p: ProgramRec| p@),
            bound_vao: self.bound_vao,
            bound_array: self.bound_array,
            bound_element: self.bound_element,
            active_program: self.active_program,
        }
    }
}

impl GlContext {
    /// A fresh context: no objects issued yet, every binding slot clear.
    pub fn new() -> (c: GlContext)
        ensures
            c@ == GlModel::init(),
            c@.wf(),
    {
        let c = GlContext {
            next_handle: 1,
            vaos: Vec::new(),
            buffers: Vec::new(),
            shaders: Vec::new(),
            programs: Vec::new(),
            bound_vao: 0,
            bound_array: 0,
            bound_element: 0,
            active_program: 0,
        };
        proof {
            assert(c@ =~= GlModel::init());
            crate::model::lemma_init_wf();
        }
        c
    }
}

impl GlContext {
    /// Issues the next handle, or hands back zero when the allocator is
    /// exhausted and the driver would refuse the request.
    fn alloc_handle(&mut self) -> (h: u32)
        ensures
            final(self)@ == old(self)@.after_alloc(),
            h == old(self)@.fresh_handle(),
    {
        if self.next_handle == u32::MAX {
            proof {
                assert(self@ =~= old(self)@.after_alloc());
            }
            0
        } else {
            let h = self.next_handle;
            self.next_handle = self.next_handle + 1;
            proof {
                assert(self@ =~= old(self)@.after_alloc());
            }
            h
        }
    }

    /// Finds the position of the buffer record with handle `h`.
    fn find_buffer(&self, h: u32) -> (i: usize)
        requires
            self@.wf(),
            self@.buffer_exists(h),
        ensures
            i < self.buffers.len(),
            i == self@.buffer_idx(h),
            self@.buffers[i as int].handle == h,
    {
        let n = self.buffers.len();
        let mut i: usize = 0;
        while i < n
            invariant
                n == self.buffers.len(),
                i <= n,
                self@.wf(),
                self@.buffer_exists(h),
                forall|j: int| 0 <= j < i ==> self@.buffers[j].handle != h,
            decreases n - i,
        {
            if self.buffers[i].handle == h {
                proof {
                    crate::model::lemma_buffer_idx(self@, h);
                    assert(self@.buffers[i as int].handle == h);
                }
                return i;
            }
            i += 1;
        }
        proof {
            crate::model::lemma_buffer_idx(self@, h);
            assert(false);
        }
        0
    }

    /// Finds the position of the shader record with handle `h`.
    fn find_shader(&self, h: u32) -> (i: usize)
        requires
            self@.wf(),
            self@.shader_exists(h),
        ensures
            i < self.shaders.len(),
            i == self@.shader_idx(h),
            self@.shaders[i as int].handle == h,
    {
        let n = self.shaders.len();
        let mut i: usize = 0;
        while i < n
            invariant
                n == self.shaders.len(),
                i <= n,
                self@.wf(),
                self@.shader_exists(h),
                forall|j: int| 0 <= j < i ==> self@.shaders[j].handle != h,
            decreases n - i,
        {
            if self.shaders[i].handle == h {
                proof {
                    crate::model::lemma_shader_idx(self@, h);
                    assert(self@.shaders[i as int].handle == h);
                }
                return i;
            }
            i += 1;
        }
        proof {
            crate::model::lemma_shader_idx(self@, h);
            assert(false);
        }
        0
    }

    /// Finds the position of the program record with handle `h`.
    fn find_program(&self, h: u32) -> (i: usize)
        requires
            self@.wf(),
            self@.program_exists(h),
        ensures
            i < self.programs.len(),
            i == self@.program_idx(h),
            self@.programs[i as int].handle == h,
    {
        let n = self.programs.len();
        let mut i: usize = 0;
        while i < n
            invariant
                n == self.programs.len(),
                i <= n,
                self@.wf(),
                self@.program_exists(h),
                forall|j: int| 0 <= j < i ==> self@.programs[j].handle != h,
            decreases n - i,
        {
            if self.programs[i].handle == h {
                proof {
                    crate::model::lemma_program_idx(self@, h);
                    assert(self@.programs[i as int].handle == h);
                }
                return i;
            }
            i += 1;
        }
        proof {
            crate::model::lemma_program_idx(self@, h);
            assert(false);
        }
        0
    }
}

/// A vertex-array object: one handle aggregating vertex attribute
/// layout state held by the driver.
#[derive(Debug)]
pub struct VertexArray(pub u32);

impl VertexArray {
    /// Requests one vertex-array object; fails when the driver cannot
    /// issue a handle, so a held `VertexArray` is never handle zero.
    pub fn new(gl: &mut GlContext) -> (r: Option<VertexArray>)
        requires
            old(gl)@.wf(),
        ensures
            final(gl)@.wf(),
            final(gl)@ == old(gl)@.after_gen_vao(),
            match r {
                Some(v) => old(gl)@.can_alloc() && v.0 == old(gl)@.next_handle && v.0 != 0
                    && final(gl)@.vao_live(v.0),
                None => !old(gl)@.can_alloc(),
            },
    {
        let h = gl.alloc_handle();
        if h != 0 {
            gl.vaos.push(h);
            proof {
                assert(gl@ =~= old(gl)@.after_gen_vao());
                crate::model::lemma_gen_vao(old(gl)@);
            }
            Some(VertexArray(h))
        } else {
            proof {
                assert(gl@ =~= old(gl)@.after_gen_vao());
                crate::model::lemma_gen_vao(old(gl)@);
            }
            None
        }
    }

    /// Binds this vertex array as the current one.
    pub fn bind(&self, gl: &mut GlContext)
        requires
            old(gl)@.wf(),
            old(gl)@.vao_live(self.0),
        ensures
            final(gl)@.wf(),
            final(gl)@ == old(gl)@.after_bind_vao(self.0),
    {
        gl.bound_vao = self.0;
        proof {
            assert(gl@ =~= old(gl)@.after_bind_vao(self.0));
            crate::model::lemma_wf_slots(old(gl)@, gl@);
        }
    }

    /// Clears the current vertex-array binding by binding handle zero.
    pub fn clear_binding(gl: &mut GlContext)
        requires
            old(gl)@.wf(),
        ensures
            final(gl)@.wf(),
            final(gl)@ == old(gl)@.after_bind_vao(0),
    {
        gl.bound_vao = 0;
        proof {
            assert(gl@ =~= old(gl)@.after_bind_vao(0));
            crate::model::lemma_wf_slots(old(gl)@, gl@);
        }
    }
}

/// A buffer object: one handle over a driver-side data store; the
/// binding target is chosen per bind call, not stored on the object.
#[derive(Debug)]
pub struct Buffer(pub u32);

impl Buffer {
    /// Requests one buffer object; fails when the driver cannot issue a
    /// handle, so a held `Buffer` is never handle zero.
    pub fn new(gl: &mut GlContext) -> (r: Option<Buffer>)
        requires
            old(gl)@.wf(),
        ensures
            final(gl)@.wf(),
            final(gl)@ == old(gl)@.after_gen_buffer(),
            match r {
                Some(b) => old(gl)@.can_alloc() && b.0 == old(gl)@.next_handle && b.0 != 0
                    && final(gl)@.buffer_exists(b.0)
                    && final(gl)@.buffer_at(b.0) == (BufferModel {
                        handle: b.0,
                        data: Seq::<u8>::empty(),
                    }),
                None => !old(gl)@.can_alloc(),
            },
    {
        let h = gl.alloc_handle();
        if h != 0 {
            gl.buffers.push(BufferRec { handle: h, data: Vec::new() });
            proof {
                crate::model::lemma_map_values_push(
                    old(gl).buffers@,
                    |b: BufferRec| b@,
                    gl.buffers@[old(gl).buffers@.len() as int],
                );
                assert(gl@ =~= old(gl)@.after_gen_buffer());
                crate::model::lemma_gen_buffer(old(gl)@);
            }
            Some(Buffer(h))
        } else {
            proof {
                assert(gl@ =~= old(gl)@.after_gen_buffer());
                crate::model::lemma_gen_buffer(old(gl)@);
            }
            None
        }
    }

    /// Binds this buffer to the slot that `ty` selects.
    pub fn bind(&self, gl: &mut GlContext, ty: BufferType)
        requires
            old(gl)@.wf(),
            old(gl)@.buffer_exists(self.0),
        ensures
            final(gl)@.wf(),
            final(gl)@ == old(gl)@.after_bind_buffer(ty, self.0),
    {
        match ty {
            BufferType::Array => {
                gl.bound_array = self.0;
            }
            BufferType::ElementArray => {
                gl.bound_element = self.0;
            }
        }
        proof {
            assert(gl@ =~= old(gl)@.after_bind_buffer(ty, self.0));
            crate::model::lemma_wf_slots(old(gl)@, gl@);
        }
    }

    /// Clears the binding slot that `ty` selects by binding handle zero.
    pub fn clear_binding(gl: &mut GlContext, ty: BufferType)
        requires
            old(gl)@.wf(),
        ensures
            final(gl)@.wf(),
            final(gl)@ == old(gl)@.after_bind_buffer(ty, 0),
    {
        match ty {
            BufferType::Array => {
                gl.bound_array = 0;
            }
            BufferType::ElementArray => {
                gl.bound_element = 0;
            }
        }
        proof {
            assert(gl@ =~= old(gl)@.after_bind_buffer(ty, 0));
            crate::model::lemma_wf_slots(old(gl)@, gl@);
        }
    }

    /// How many bytes this buffer currently stores.
    pub fn stored_size(&self, gl: &GlContext) -> (n: usize)
        requires
            gl@.wf(),
            gl@.buffer_exists(self.0),
        ensures
            n == gl@.buffer_at(self.0).data.len(),
    {
        let i = gl.find_buffer(self.0);
        proof {
            crate::model::lemma_buffer_idx(gl@, self.0);
        }
        gl.buffers[i].data.len()
    }
}

/// Replaces the full contents of whichever buffer is bound at the slot
/// that `ty` selects with `data`; with the slot clear nothing happens.
/// The usage argument is an opaque performance hint with no effect on
/// the stored contents.
pub fn buffer_data(gl: &mut GlContext, ty: BufferType, data: &[u8], _usage: u32)
    requires
        old(gl)@.wf(),
    ensures
        final(gl)@.wf(),
        final(gl)@ == old(gl)@.after_buffer_data(ty, data@),
        old(gl)@.bound_buffer(ty) != 0
            ==> final(gl)@.buffer_at(old(gl)@.bound_buffer(ty)).data == data@,
{
    let slot = match ty {
        BufferType::Array => gl.bound_array,
        BufferType::ElementArray => gl.bound_element,
    };
    if slot != 0 {
        let i = gl.find_buffer(slot);
        let bytes = vstd::slice::slice_to_vec(data);
        gl.buffers[i] = BufferRec { handle: slot, data: bytes };
        proof {
            crate::model::lemma_map_values_update(
                old(gl).buffers@,
                |b: BufferRec| b@,
                i as int,
                gl.buffers@[i as int],
            );
            assert(gl@ =~= GlModel {
                buffers: old(gl)@.buffers.update(
                    old(gl)@.buffer_idx(slot),
                    BufferModel { handle: slot, data: data@ },
                ),
                ..old(gl)@
            });
            crate::model::lemma_update_buffer(
                old(gl)@,
                slot,
                BufferModel { handle: slot, data: data@ },
            );
            assert(gl@ =~= old(gl)@.after_buffer_data(ty, data@));
        }
    } else {
        proof {
            assert(gl@ =~= old(gl)@.after_buffer_data(ty, data@));
        }
    }
}

/// A shader object: one handle over a single compilation unit whose
/// stage is fixed at creation.
#[derive(Debug)]
pub struct Shader(pub u32);

impl Shader {
    /// Requests one shader object for stage `ty`; fails when the driver
    /// cannot issue a handle, so a held `Shader` is never handle zero.
    pub fn new(gl: &mut GlContext, ty: ShaderType) -> (r: Option<Shader>)
        requires
            old(gl)@.wf(),
        ensures
            final(gl)@.wf(),
            final(gl)@ == old(gl)@.after_create_shader(ty),
            old(gl)@.same_but_shaders(final(gl)@),
            match r {
                Some(s) => old(gl)@.can_alloc() && s.0 == old(gl)@.next_handle && s.0 != 0
                    && final(gl)@.shader_exists(s.0)
                    && final(gl)@.shader_at(s.0) == (ShaderModel {
                        handle: s.0,
                        stage: ty,
                        source: Seq::<char>::empty(),
                        compiled: false,
                        ok: false,
                        log: Seq::<char>::empty(),
                        deleted: false,
                    }),
                None => !old(gl)@.can_alloc(),
            },
            forall|g: u32| #[trigger] old(gl)@.shader_exists(g)
                ==> final(gl)@.shader_exists(g)
                    && final(gl)@.shader_at(g) == old(gl)@.shader_at(g),
    {
        let h = gl.alloc_handle();
        if h != 0 {
            gl.shaders.push(ShaderRec {
                handle: h,
                stage: ty,
                source: String::new(),
                compiled: false,
                ok: false,
                log: String::new(),
                deleted: false,
            });
            proof {
                crate::model::lemma_map_values_push(
                    old(gl).shaders@,
                    |s: ShaderRec| s@,
                    gl.shaders@[old(gl).shaders@.len() as int],
                );
                assert(gl@ =~= old(gl)@.after_create_shader(ty));
                crate::model::lemma_create_shader(old(gl)@, ty);
            }
            Some(Shader(h))
        } else {
            proof {
                assert(gl@ =~= old(gl)@.after_create_shader(ty));
                crate::model::lemma_create_shader(old(gl)@, ty);
            }
            None
        }
    }

    /// Assigns `src` as this shader's single source string; the new text
    /// fully replaces any earlier text.
    pub fn set_source(&self, gl: &mut GlContext, src: &str)
        requires
            old(gl)@.wf(),
            old(gl)@.shader_exists(self.0),
        ensures
            final(gl)@.wf(),
            final(gl)@ == old(gl)@.after_set_source(self.0, src@),
            old(gl)@.same_but_shaders(final(gl)@),
            final(gl)@.next_handle == old(gl)@.next_handle,
            final(gl)@.shader_at(self.0) == (ShaderModel {
                source: src@,
                ..old(gl)@.shader_at(self.0)
            }),
            forall|g: u32| #[trigger] final(gl)@.shader_exists(g) <==> old(gl)@.shader_exists(g),
            forall|g: u32|
                g != self.0 && #[trigger] old(gl)@.shader_exists(g)
                    ==> final(gl)@.shader_at(g) == old(gl)@.shader_at(g),
    {
        let i = gl.find_shader(self.0);
        let rec = ShaderRec {
            handle: gl.shaders[i].handle,
            stage: gl.shaders[i].stage,
            source: src.to_owned(),
            compiled: gl.shaders[i].compiled,
            ok: gl.shaders[i].ok,
            log: gl.shaders[i].log.clone(),
            deleted: gl.shaders[i].deleted,
        };
        gl.shaders[i] = rec;
        proof {
            crate::model::lemma_shader_idx(old(gl)@, self.0);
            crate::model::lemma_map_values_update(
                old(gl).shaders@,
                |s: ShaderRec| s@,
                i as int,
                gl.shaders@[i as int],
            );
            assert(gl.shaders@[i as int]@ =~= ShaderModel {
                source: src@,
                ..old(gl)@.shader_at(self.0)
            });
            crate::model::lemma_update_shader(
                old(gl)@,
                self.0,
                ShaderModel { source: src@, ..old(gl)@.shader_at(self.0) },
            );
            assert(gl@ =~= old(gl)@.after_set_source(self.0, src@));
        }
    }

    /// Compiles the currently assigned source: the driver's verdict and
    /// log are recorded on this shader for the status and log queries.
    pub fn compile(&self, gl: &mut GlContext, verdict: Verdict)
        requires
            old(gl)@.wf(),
            old(gl)@.shader_exists(self.0),
        ensures
            final(gl)@.wf(),
            final(gl)@ == old(gl)@.after_compile(self.0, verdict@.ok, verdict@.log),
            old(gl)@.same_but_shaders(final(gl)@),
            final(gl)@.next_handle == old(gl)@.next_handle,
            final(gl)@.shader_at(self.0) == (ShaderModel {
                compiled: true,
                ok: verdict@.ok,
                log: verdict@.log,
                ..old(gl)@.shader_at(self.0)
            }),
            forall|g: u32| #[trigger] final(gl)@.shader_exists(g) <==> old(gl)@.shader_exists(g),
            forall|g: u32|
                g != self.0 && #[trigger] old(gl)@.shader_exists(g)
                    ==> final(gl)@.shader_at(g) == old(gl)@.shader_at(g),
    {
        let i = gl.find_shader(self.0);
        let rec = ShaderRec {
            handle: gl.shaders[i].handle,
            stage: gl.shaders[i].stage,
            source: gl.shaders[i].source.clone(),
            compiled: true,
            ok: verdict.ok,
            log: verdict.log,
            deleted: gl.shaders[i].deleted,
        };
        gl.shaders[i] = rec;
        proof {
            crate::model::lemma_shader_idx(old(gl)@, self.0);
            crate::model::lemma_map_values_update(
                old(gl).shaders@,
                |s: ShaderRec| s@,
                i as int,
                gl.shaders@[i as int],
            );
            assert(gl.shaders@[i as int]@ =~= ShaderModel {
                compiled: true,
                ok: verdict@.ok,
                log: verdict@.log,
                ..old(gl)@.shader_at(self.0)
            });
            crate::model::lemma_update_shader(
                old(gl)@,
                self.0,
                ShaderModel {
                    compiled: true,
                    ok: verdict@.ok,
                    log: verdict@.log,
                    ..old(gl)@.shader_at(self.0)
                },
            );
            assert(gl@ =~= old(gl)@.after_compile(self.0, verdict@.ok, verdict@.log));
        }
    }

    /// Whether the last compile of this shader succeeded; false while no
    /// compile has been recorded.
    pub fn compile_success(&self, gl: &GlContext) -> (r: bool)
        requires
            gl@.wf(),
            gl@.shader_exists(self.0),
        ensures
            r == gl@.shader_at(self.0).ok,
    {
        let i = gl.find_shader(self.0);
        gl.shaders[i].ok
    }

    /// The driver's diagnostic text for the last compile of this shader,
    /// possibly empty.
    pub fn info_log(&self, gl: &GlContext) -> (r: String)
        requires
            gl@.wf(),
            gl@.shader_exists(self.0),
        ensures
            r@ == gl@.shader_at(self.0).log,
    {
        let i = gl.find_shader(self.0);
        gl.shaders[i].log.clone()
    }

    /// Marks this shader for deletion and consumes it.  The driver
    /// defers the actual release while the shader stays attached to any
    /// program, so only the mark is recorded here.
    pub fn delete(self, gl: &mut GlContext)
        requires
            old(gl)@.wf(),
            old(gl)@.shader_exists(self.0),
        ensures
            final(gl)@.wf(),
            final(gl)@ == old(gl)@.after_delete_shader(self.0),
            old(gl)@.same_but_shaders(final(gl)@),
            final(gl)@.next_handle == old(gl)@.next_handle,
            final(gl)@.shader_at(self.0) == (ShaderModel {
                deleted: true,
                ..old(gl)@.shader_at(self.0)
            }),
            forall|g: u32| #[trigger] final(gl)@.shader_exists(g) <==> old(gl)@.shader_exists(g),
            forall|g: u32|
                g != self.0 && #[trigger] old(gl)@.shader_exists(g)
                    ==> final(gl)@.shader_at(g) == old(gl)@.shader_at(g),
    {
        let i = gl.find_shader(self.0);
        let rec = ShaderRec {
            handle: gl.shaders[i].handle,
            stage: gl.shaders[i].stage,
            source: gl.shaders[i].source.clone(),
            compiled: gl.shaders[i].compiled,
            ok: gl.shaders[i].ok,
            log: gl.shaders[i].log.clone(),
            deleted: true,
        };
        gl.shaders[i] = rec;
        proof {
            crate::model::lemma_shader_idx(old(gl)@, self.0);
            crate::model::lemma_map_values_update(
                old(gl).shaders@,
                |s: ShaderRec| s@,
                i as int,
                gl.shaders@[i as int],
            );
            assert(gl.shaders@[i as int]@ =~= ShaderModel {
                deleted: true,
                ..old(gl)@.shader_at(self.0)
            });
            crate::model::lemma_update_shader(
                old(gl)@,
                self.0,
                ShaderModel { deleted: true, ..old(gl)@.shader_at(self.0) },
            );
            assert(gl@ =~= old(gl)@.after_delete_shader(self.0));
        }
    }

    /// Creates a stage-`ty` shader from `source` in one step: create,
    /// assign source, compile, check.  On compile failure the shader is
    /// deleted before the driver's log is handed back, so a failed
    /// shader handle never leaks.
    pub fn from_source(
        gl: &mut GlContext,
        ty: ShaderType,
        source: &str,
        verdict: Verdict,
    ) -> (r: Result<Shader, String>)
        requires
            old(gl)@.wf(),
        ensures
            final(gl)@.wf(),
            final(gl)@ == old(gl)@.after_from_source(ty, source@, verdict@.ok, verdict@.log),
            old(gl)@.same_but_shaders(final(gl)@),
            match r {
                Ok(s) => old(gl)@.can_alloc() && verdict@.ok && s.0 == old(gl)@.next_handle
                    && s.0 != 0 && final(gl)@.shader_exists(s.0)
                    && final(gl)@.shader_at(s.0) == (ShaderModel {
                        handle: s.0,
                        stage: ty,
                        source: source@,
                        compiled: true,
                        ok: true,
                        log: verdict@.log,
                        deleted: false,
                    }),
                Err(e) => if !old(gl)@.can_alloc() {
                    e@ == "Couldn't allocate new shader"@ && final(gl)@ == old(gl)@
                } else {
                    !verdict@.ok && e@ == verdict@.log
                        && final(gl)@.shader_exists(old(gl)@.next_handle)
                        && final(gl)@.shader_at(old(gl)@.next_handle) == (ShaderModel {
                            handle: old(gl)@.next_handle,
                            stage: ty,
                            source: source@,
                            compiled: true,
                            ok: false,
                            log: verdict@.log,
                            deleted: true,
                        })
                },
            },
            forall|g: u32| #[trigger] old(gl)@.shader_exists(g)
                ==> final(gl)@.shader_exists(g)
                    && final(gl)@.shader_at(g) == old(gl)@.shader_at(g),
    {
        let created = Shader::new(gl, ty);
        let ghost m1 = gl@;
        match created {
            None => Err("Couldn't allocate new shader".to_owned()),
            Some(s) => {
                s.set_source(gl, source);
                let ghost m2 = gl@;
                s.compile(gl, verdict);
                let ghost m3 = gl@;
                if s.compile_success(gl) {
                    proof {
                        assert forall|g: u32| old(gl)@.shader_exists(g)
                            implies gl@.shader_exists(g)
                                && gl@.shader_at(g) == old(gl)@.shader_at(g) by {
                            crate::model::lemma_shader_idx(old(gl)@, g);
                            assert(g != s.0);
                            assert(m1.shader_exists(g)
                                && m1.shader_at(g) == old(gl)@.shader_at(g));
                            assert(m2.shader_exists(g) && m2.shader_at(g) == m1.shader_at(g));
                            assert(m3.shader_exists(g) && m3.shader_at(g) == m2.shader_at(g));
                        };
                    }
                    Ok(s)
                } else {
                    let out = s.info_log(gl);
                    s.delete(gl);
                    proof {
                        assert forall|g: u32| old(gl)@.shader_exists(g)
                            implies gl@.shader_exists(g)
                                && gl@.shader_at(g) == old(gl)@.shader_at(g) by {
                            crate::model::lemma_shader_idx(old(gl)@, g);
                            assert(g != s.0);
                            assert(m1.shader_exists(g)
                                && m1.shader_at(g) == old(gl)@.shader_at(g));
                            assert(m2.shader_exists(g) && m2.shader_at(g) == m1.shader_at(g));
                            assert(m3.shader_exists(g) && m3.shader_at(g) == m2.shader_at(g));
                            assert(gl@.shader_exists(g) && gl@.shader_at(g) == m3.shader_at(g));
                        };
                    }
                    Err(out)
                }
            }
        }
    }
}

/// A program object: one handle that links compiled shader objects into
/// an executable pipeline.
#[derive(Debug)]
pub struct ShaderProgram(pub u32);

impl ShaderProgram {
    /// Requests one program object; fails when the driver cannot issue a
    /// handle, so a held `ShaderProgram` is never handle zero.
    pub fn new(gl: &mut GlContext) -> (r: Option<ShaderProgram>)
        requires
            old(gl)@.wf(),
        ensures
            final(gl)@.wf(),
            final(gl)@ == old(gl)@.after_create_program(),
            old(gl)@.same_but_programs(final(gl)@),
            match r {
                Some(p) => old(gl)@.can_alloc() && p.0 == old(gl)@.next_handle && p.0 != 0
                    && final(gl)@.program_exists(p.0)
                    && final(gl)@.program_at(p.0) == (ProgramModel {
                        handle: p.0,
                        attached: Seq::<u32>::empty(),
                        linked: false,
                        ok: false,
                        log: Seq::<char>::empty(),
                        deleted: false,
                    }),
                None => !old(gl)@.can_alloc(),
            },
            forall|g: u32| #[trigger] old(gl)@.program_exists(g)
                ==> final(gl)@.program_exists(g)
                    && final(gl)@.program_at(g) == old(gl)@.program_at(g),
    {
        let h = gl.alloc_handle();
        if h != 0 {
            gl.programs.push(ProgramRec {
                handle: h,
                attached: Vec::new(),
                linked: false,
                ok: false,
                log: String::new(),
                deleted: false,
            });
            proof {
                crate::model::lemma_map_values_push(
                    old(gl).programs@,
                    |p: ProgramRec| p@,
                    gl.programs@[old(gl).programs@.len() as int],
                );
                assert(gl@ =~= old(gl)@.after_create_program());
                crate::model::lemma_create_program(old(gl)@);
            }
            Some(ShaderProgram(h))
        } else {
            proof {
                assert(gl@ =~= old(gl)@.after_create_program());
                crate::model::lemma_create_program(old(gl)@);
            }
            None
        }
    }

    /// Attaches `shader` to this program; order of attachment carries no
    /// meaning beyond the list recorded here.
    pub fn attach_shader(&self, gl: &mut GlContext, shader: &Shader)
        requires
            old(gl)@.wf(),
            old(gl)@.program_exists(self.0),
            old(gl)@.shader_exists(shader.0),
        ensures
            final(gl)@.wf(),
            final(gl)@ == old(gl)@.after_attach(self.0, shader.0),
            old(gl)@.same_but_programs(final(gl)@),
            final(gl)@.next_handle == old(gl)@.next_handle,
            final(gl)@.program_at(self.0) == (ProgramModel {
                attached: old(gl)@.program_at(self.0).attached.push(shader.0),
                ..old(gl)@.program_at(self.0)
            }),
            forall|g: u32| #[trigger] final(gl)@.program_exists(g) <==> old(gl)@.program_exists(g),
            forall|g: u32|
                g != self.0 && #[trigger] old(gl)@.program_exists(g)
                    ==> final(gl)@.program_at(g) == old(gl)@.program_at(g),
    {
        let i = gl.find_program(self.0);
        let mut rec = gl.programs.remove(i);
        rec.attached.push(shader.0);
        gl.programs.insert(i, rec);
        proof {
            crate::model::lemma_shader_idx(old(gl)@, shader.0);
            crate::model::lemma_program_idx(old(gl)@, self.0);
            crate::model::lemma_remove_insert(
                old(gl).programs@,
                i as int,
                gl.programs@[i as int],
            );
            crate::model::lemma_map_values_update(
                old(gl).programs@,
                |p: ProgramRec| p@,
                i as int,
                gl.programs@[i as int],
            );
            assert(gl.programs@[i as int]@ =~= ProgramModel {
                attached: old(gl)@.program_at(self.0).attached.push(shader.0),
                ..old(gl)@.program_at(self.0)
            });
            crate::model::lemma_update_program(
                old(gl)@,
                self.0,
                ProgramModel {
                    attached: old(gl)@.program_at(self.0).attached.push(shader.0),
                    ..old(gl)@.program_at(self.0)
                },
            );
            assert(gl@ =~= old(gl)@.after_attach(self.0, shader.0));
        }
    }

    /// Links the attached shaders: the driver's verdict and log are
    /// recorded on this program for the status and log queries.
    pub fn link_program(&self, gl: &mut GlContext, verdict: Verdict)
        requires
            old(gl)@.wf(),
            old(gl)@.program_exists(self.0),
        ensures
            final(gl)@.wf(),
            final(gl)@ == old(gl)@.after_link(self.0, verdict@.ok, verdict@.log),
            old(gl)@.same_but_programs(final(gl)@),
            final(gl)@.next_handle == old(gl)@.next_handle,
            final(gl)@.program_at(self.0) == (ProgramModel {
                linked: true,
                ok: verdict@.ok,
                log: verdict@.log,
                ..old(gl)@.program_at(self.0)
            }),
            forall|g: u32| #[trigger] final(gl)@.program_exists(g) <==> old(gl)@.program_exists(g),
            forall|g: u32|
                g != self.0 && #[trigger] old(gl)@.program_exists(g)
                    ==> final(gl)@.program_at(g) == old(gl)@.program_at(g),
    {
        let i = gl.find_program(self.0);
        let mut rec = gl.programs.remove(i);
        rec.linked = true;
        rec.ok = verdict.ok;
        rec.log = verdict.log;
        gl.programs.insert(i, rec);
        proof {
            crate::model::lemma_program_idx(old(gl)@, self.0);
            crate::model::lemma_remove_insert(
                old(gl).programs@,
                i as int,
                gl.programs@[i as int],
            );
            crate::model::lemma_map_values_update(
                old(gl).programs@,
                |p: ProgramRec| p@,
                i as int,
                gl.programs@[i as int],
            );
            assert(gl.programs@[i as int]@ =~= ProgramModel {
                linked: true,
                ok: verdict@.ok,
                log: verdict@.log,
                ..old(gl)@.program_at(self.0)
            });
            crate::model::lemma_update_program(
                old(gl)@,
                self.0,
                ProgramModel {
                    linked: true,
                    ok: verdict@.ok,
                    log: verdict@.log,
                    ..old(gl)@.program_at(self.0)
                },
            );
            assert(gl@ =~= old(gl)@.after_link(self.0, verdict@.ok, verdict@.log));
        }
    }

    /// Whether the last link of this program succeeded; false while no
    /// link has been recorded.
    pub fn link_success(&self, gl: &GlContext) -> (r: bool)
        requires
            gl@.wf(),
            gl@.program_exists(self.0),
        ensures
            r == gl@.program_at(self.0).ok,
    {
        let i = gl.find_program(self.0);
        gl.programs[i].ok
    }

    /// The driver's diagnostic text for the last link of this program,
    /// possibly empty.
    pub fn info_log(&self, gl: &GlContext) -> (r: String)
        requires
            gl@.wf(),
            gl@.program_exists(self.0),
        ensures
            r@ == gl@.program_at(self.0).log,
    {
        let i = gl.find_program(self.0);
        gl.programs[i].log.clone()
    }

    /// Activates this program for subsequent draw operations; at most
    /// one program is active at a time.
    pub fn use_program(&self, gl: &mut GlContext)
        requires
            old(gl)@.wf(),
            old(gl)@.program_exists(self.0),
        ensures
            final(gl)@.wf(),
            final(gl)@ == old(gl)@.after_use_program(self.0),
    {
        gl.active_program = self.0;
        proof {
            assert(gl@ =~= old(gl)@.after_use_program(self.0));
            crate::model::lemma_wf_slots(old(gl)@, gl@);
        }
    }

    /// Marks this program for deletion and consumes it.  The driver
    /// defers the actual release while the program stays active, so only
    /// the mark is recorded here.
    pub fn delete(self, gl: &mut GlContext)
        requires
            old(gl)@.wf(),
            old(gl)@.program_exists(self.0),
        ensures
            final(gl)@.wf(),
            final(gl)@ == old(gl)@.after_delete_program(self.0),
            old(gl)@.same_but_programs(final(gl)@),
            final(gl)@.next_handle == old(gl)@.next_handle,
            final(gl)@.program_at(self.0) == (ProgramModel {
                deleted: true,
                ..old(gl)@.program_at(self.0)
            }),
            forall|g: u32| #[trigger] final(gl)@.program_exists(g) <==> old(gl)@.program_exists(g),
            forall|g: u32|
                g != self.0 && #[trigger] old(gl)@.program_exists(g)
                    ==> final(gl)@.program_at(g) == old(gl)@.program_at(g),
    {
        let i = gl.find_program(self.0);
        let mut rec = gl.programs.remove(i);
        rec.deleted = true;
        gl.programs.insert(i, rec);
        proof {
            crate::model::lemma_program_idx(old(gl)@, self.0);
            crate::model::lemma_remove_insert(
                old(gl).programs@,
                i as int,
                gl.programs@[i as int],
            );
            crate::model::lemma_map_values_update(
                old(gl).programs@,
                |p: ProgramRec| p@,
                i as int,
                gl.programs@[i as int],
            );
            assert(gl.programs@[i as int]@ =~= ProgramModel {
                deleted: true,
                ..old(gl)@.program_at(self.0)
            });
            crate::model::lemma_update_program(
                old(gl)@,
                self.0,
                ProgramModel { deleted: true, ..old(gl)@.program_at(self.0) },
            );
            assert(gl@ =~= old(gl)@.after_delete_program(self.0));
        }
    }
}

impl ShaderProgram {
    /// Builds a linked program from vertex and fragment source in one
    /// step: allocate, compile both stages, attach, link, and tear the
    /// two intermediate shaders down whatever the outcome.  Every
    /// failure deletes the resources this call created before the
    /// stage-prefixed diagnostic text is handed back.
    #[verifier::rlimit(60)]
    pub fn from_vert_frag(
        gl: &mut GlContext,
        vert: &str,
        frag: &str,
        vert_verdict: Verdict,
        frag_verdict: Verdict,
        link_verdict: Verdict,
    ) -> (r: Result<ShaderProgram, String>)
        requires
            old(gl)@.wf(),
        ensures
            final(gl)@.wf(),
            final(gl)@ == old(gl)@.after_from_vert_frag(
                vert@,
                frag@,
                vert_verdict@,
                frag_verdict@,
                link_verdict@,
            ),
            match (
                r,
                old(gl)@.vert_frag_outcome(vert_verdict@, frag_verdict@, link_verdict@),
            ) {
                (Ok(p), Ok(h)) => p.0 == h && h != 0 && final(gl)@.program_exists(h),
                (Err(e), Err(msg)) => e@ == msg,
                _ => false,
            },
            final(gl)@.vaos == old(gl)@.vaos,
            final(gl)@.buffers == old(gl)@.buffers,
            final(gl)@.bound_vao == old(gl)@.bound_vao,
            final(gl)@.bound_array == old(gl)@.bound_array,
            final(gl)@.bound_element == old(gl)@.bound_element,
            final(gl)@.active_program == old(gl)@.active_program,
    {
        let ghost m0 = gl@;
        let created = ShaderProgram::new(gl);
        let ghost m1 = gl@;
        match created {
            None => {
                proof {
                    assert(gl@ == m0.after_from_vert_frag(
                        vert@, frag@, vert_verdict@, frag_verdict@, link_verdict@,
                    ));
                }
                Err("Couldn't allocate a program".to_owned())
            }
            Some(p) => {
                let vres = Shader::from_source(gl, ShaderType::Vertex, vert, vert_verdict);
                let ghost m2 = gl@;
                match vres {
                    Err(e) => {
                        proof {
                            crate::model::lemma_same_programs(m1, gl@, p.0);
                        }
                        p.delete(gl);
                        proof {
                            assert(gl@ == m2.after_delete_program(p.0));
                            assert(gl@ == m0.after_from_vert_frag(
                                vert@, frag@, vert_verdict@, frag_verdict@, link_verdict@,
                            ));
                        }
                        Err("Vertex Compile Error: ".to_owned().concat(e.as_str()))
                    }
                    Ok(v) => {
                        let fres =
                            Shader::from_source(gl, ShaderType::Fragment, frag, frag_verdict);
                        let ghost m3 = gl@;
                        match fres {
                            Err(e) => {
                                proof {
                                    assert(m2.shader_exists(v.0));
                                    assert(gl@.shader_exists(v.0));
                                }
                                v.delete(gl);
                                proof {
                                    crate::model::lemma_same_programs(m1, m2, p.0);
                                    crate::model::lemma_same_programs(m2, gl@, p.0);
                                }
                                p.delete(gl);
                                proof {
                                    assert(gl@ == m3.after_delete_shader(v.0)
                                        .after_delete_program(p.0));
                                    assert(gl@ == m0.after_from_vert_frag(
                                        vert@, frag@, vert_verdict@, frag_verdict@,
                                        link_verdict@,
                                    ));
                                }
                                Err("Fragment Compile Error: ".to_owned().concat(e.as_str()))
                            }
                            Ok(f) => {
                                proof {
                                    crate::model::lemma_same_programs(m1, m2, p.0);
                                    crate::model::lemma_same_programs(m2, m3, p.0);
                                    assert(m2.shader_exists(v.0));
                                    assert(m3.shader_exists(v.0));
                                }
                                p.attach_shader(gl, &v);
                                let ghost m4 = gl@;
                                proof {
                                    crate::model::lemma_same_shaders(m3, m4, v.0);
                                    crate::model::lemma_same_shaders(m3, m4, f.0);
                                }
                                p.attach_shader(gl, &f);
                                let ghost m5 = gl@;
                                p.link_program(gl, link_verdict);
                                let ghost m6 = gl@;
                                proof {
                                    crate::model::lemma_same_shaders(m4, m5, v.0);
                                    crate::model::lemma_same_shaders(m5, m6, v.0);
                                }
                                v.delete(gl);
                                let ghost m7 = gl@;
                                proof {
                                    crate::model::lemma_same_shaders(m4, m5, f.0);
                                    crate::model::lemma_same_shaders(m5, m6, f.0);
                                }
                                f.delete(gl);
                                let ghost m8 = gl@;
                                proof {
                                    crate::model::lemma_same_programs(m6, m7, p.0);
                                    crate::model::lemma_same_programs(m7, m8, p.0);
                                }
                                if p.link_success(gl) {
                                    proof {
                                        assert(gl@ == m0.after_from_vert_frag(
                                            vert@, frag@, vert_verdict@, frag_verdict@,
                                            link_verdict@,
                                        ));
                                    }
                                    Ok(p)
                                } else {
                                    let out = "Program Link Error: "
                                        .to_owned()
                                        .concat(p.info_log(gl).as_str());
                                    p.delete(gl);
                                    proof {
                                        assert(gl@ == m8.after_delete_program(p.0));
                                        assert(gl@ == m0.after_from_vert_frag(
                                            vert@, frag@, vert_verdict@, frag_verdict@,
                                            link_verdict@,
                                        ));
                                    }
                                    Err(out)
                                }
                            }
                        }
                    }
                }
            }
        }
    }
}

} // verus!
