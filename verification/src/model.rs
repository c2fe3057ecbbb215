//! The mathematical model of the driver state behind one GPU context.
//!
//! [`GlModel`] is the view of [`crate::gl::GlContext`]: the handle
//! allocator, one record per issued object, and the implicit binding
//! slots.  Every executable operation's contract is one equation between
//! the context's view after the call and a transition function defined
//! here, so the lifecycle rules compose at the specification level.

use vstd::prelude::*;
use crate::gl::{BufferType, ShaderType};

verus! {

/// The driver's answer to a compile or link request, at the model level.
pub ghost struct VerdictModel {
    pub ok: bool,
    pub log: Seq<char>,
}

/// Model of one buffer object: its handle and stored bytes.
#[verifier::ext_equal]
pub ghost struct BufferModel {
    pub handle: u32,
    pub data: Seq<u8>,
}

/// Model of one shader object: handle, stage, source, last compile
/// outcome, and deletion mark.
#[verifier::ext_equal]
pub ghost struct ShaderModel {
    pub handle: u32,
    pub stage: ShaderType,
    pub source: Seq<char>,
    pub compiled: bool,
    pub ok: bool,
    pub log: Seq<char>,
    pub deleted: bool,
}

/// Model of one program object: handle, attached shader handles, last
/// link outcome, and deletion mark.
#[verifier::ext_equal]
pub ghost struct ProgramModel {
    pub handle: u32,
    pub attached: Seq<u32>,
    pub linked: bool,
    pub ok: bool,
    pub log: Seq<char>,
    pub deleted: bool,
}

/// Model of the driver state owned by one GPU context.
#[verifier::ext_equal]
pub ghost struct GlModel {
    pub next_handle: u32,
    pub vaos: Seq<u32>,
    pub buffers: Seq<BufferModel>,
    pub shaders: Seq<ShaderModel>,
    pub programs: Seq<ProgramModel>,
    pub bound_vao: u32,
    pub bound_array: u32,
    pub bound_element: u32,
    pub active_program: u32,
}

/// Handles in a vertex-array list are nonzero, below the allocator mark,
/// and pairwise distinct.
pub open spec fn vao_handles_wf(s: Seq<u32>, next: u32) -> bool {
    &&& forall|i: int| 0 <= i < s.len() ==> 0 < #[trigger] s[i] < next
    &&& forall|i: int, j: int|
        0 <= i < s.len() && 0 <= j < s.len() && i != j ==> s[i] != s[j]
}

/// Buffer-record handles are nonzero, below the allocator mark, and
/// pairwise distinct.
pub open spec fn buffer_handles_wf(s: Seq<BufferModel>, next: u32) -> bool {
    &&& forall|i: int| 0 <= i < s.len() ==> 0 < #[trigger] s[i].handle < next
    &&& forall|i: int, j: int|
        0 <= i < s.len() && 0 <= j < s.len() && i != j ==> s[i].handle != s[j].handle
}

/// Shader-record handles are nonzero, below the allocator mark, and
/// pairwise distinct.
pub open spec fn shader_handles_wf(s: Seq<ShaderModel>, next: u32) -> bool {
    &&& forall|i: int| 0 <= i < s.len() ==> 0 < #[trigger] s[i].handle < next
    &&& forall|i: int, j: int|
        0 <= i < s.len() && 0 <= j < s.len() && i != j ==> s[i].handle != s[j].handle
}

/// Program-record handles are nonzero, below the allocator mark, and
/// pairwise distinct.
pub open spec fn program_handles_wf(s: Seq<ProgramModel>, next: u32) -> bool {
    &&& forall|i: int| 0 <= i < s.len() ==> 0 < #[trigger] s[i].handle < next
    &&& forall|i: int, j: int|
        0 <= i < s.len() && 0 <= j < s.len() && i != j ==> s[i].handle != s[j].handle
}

impl GlModel {
    /// The state of a context that has issued nothing yet.
    pub open spec fn init() -> GlModel {
        GlModel {
            next_handle: 1,
            vaos: Seq::empty(),
            buffers: Seq::empty(),
            shaders: Seq::empty(),
            programs: Seq::empty(),
            bound_vao: 0,
            bound_array: 0,
            bound_element: 0,
            active_program: 0,
        }
    }

    /// Well-formedness: zero is never an issued handle, issued handles
    /// are distinct and below the allocator mark, and every binding slot
    /// is either clear or holds an issued handle of the right kind.
    pub open spec fn wf(self) -> bool {
        &&& 0 < self.next_handle
        &&& vao_handles_wf(self.vaos, self.next_handle)
        &&& buffer_handles_wf(self.buffers, self.next_handle)
        &&& shader_handles_wf(self.shaders, self.next_handle)
        &&& program_handles_wf(self.programs, self.next_handle)
        &&& (self.bound_vao == 0 || self.vao_live(self.bound_vao))
        &&& (self.bound_array == 0 || self.buffer_exists(self.bound_array))
        &&& (self.bound_element == 0 || self.buffer_exists(self.bound_element))
        &&& (self.active_program == 0 || self.program_exists(self.active_program))
    }

    /// Whether the allocator can still issue a handle.
    pub open spec fn can_alloc(self) -> bool {
        self.next_handle < u32::MAX
    }

    /// The handle the driver issues for the next request, zero when it
    /// cannot issue one.
    pub open spec fn fresh_handle(self) -> u32 {
        if self.can_alloc() {
            self.next_handle
        } else {
            0
        }
    }

    pub open spec fn vao_live(self, h: u32) -> bool {
        self.vaos.contains(h)
    }

    pub open spec fn buffer_exists(self, h: u32) -> bool {
        exists|i: int| 0 <= i < self.buffers.len() && #[trigger] self.buffers[i].handle == h
    }

    pub open spec fn buffer_idx(self, h: u32) -> int {
        choose|i: int| 0 <= i < self.buffers.len() && #[trigger] self.buffers[i].handle == h
    }

    /// The record of the buffer object with handle `h`.
    pub open spec fn buffer_at(self, h: u32) -> BufferModel {
        self.buffers[self.buffer_idx(h)]
    }

    pub open spec fn shader_exists(self, h: u32) -> bool {
        exists|i: int| 0 <= i < self.shaders.len() && #[trigger] self.shaders[i].handle == h
    }

    pub open spec fn shader_idx(self, h: u32) -> int {
        choose|i: int| 0 <= i < self.shaders.len() && #[trigger] self.shaders[i].handle == h
    }

    /// The record of the shader object with handle `h`.
    pub open spec fn shader_at(self, h: u32) -> ShaderModel {
        self.shaders[self.shader_idx(h)]
    }

    pub open spec fn program_exists(self, h: u32) -> bool {
        exists|i: int| 0 <= i < self.programs.len() && #[trigger] self.programs[i].handle == h
    }

    pub open spec fn program_idx(self, h: u32) -> int {
        choose|i: int| 0 <= i < self.programs.len() && #[trigger] self.programs[i].handle == h
    }

    /// The record of the program object with handle `h`.
    pub open spec fn program_at(self, h: u32) -> ProgramModel {
        self.programs[self.program_idx(h)]
    }

    /// Everything except the shader records and the allocator mark is
    /// the same in `m2`.
    pub open spec fn same_but_shaders(self, m2: GlModel) -> bool {
        &&& m2.vaos == self.vaos
        &&& m2.buffers == self.buffers
        &&& m2.programs == self.programs
        &&& m2.bound_vao == self.bound_vao
        &&& m2.bound_array == self.bound_array
        &&& m2.bound_element == self.bound_element
        &&& m2.active_program == self.active_program
    }

    /// Everything except the program records and the allocator mark is
    /// the same in `m2`.
    pub open spec fn same_but_programs(self, m2: GlModel) -> bool {
        &&& m2.vaos == self.vaos
        &&& m2.buffers == self.buffers
        &&& m2.shaders == self.shaders
        &&& m2.bound_vao == self.bound_vao
        &&& m2.bound_array == self.bound_array
        &&& m2.bound_element == self.bound_element
        &&& m2.active_program == self.active_program
    }

    /// The binding slot that `ty` selects.
    pub open spec fn bound_buffer(self, ty: BufferType) -> u32 {
        match ty {
            BufferType::Array => self.bound_array,
            BufferType::ElementArray => self.bound_element,
        }
    }

    /// The allocator after one issue request (the issued handle itself is
    /// `fresh_handle`).
    pub open spec fn after_alloc(self) -> GlModel {
        if self.can_alloc() {
            GlModel { next_handle: (self.next_handle + 1) as u32, ..self }
        } else {
            self
        }
    }

    /// Generating a vertex-array object.
    pub open spec fn after_gen_vao(self) -> GlModel {
        if self.can_alloc() {
            GlModel {
                next_handle: (self.next_handle + 1) as u32,
                vaos: self.vaos.push(self.next_handle),
                ..self
            }
        } else {
            self
        }
    }

    /// Generating a buffer object; a new buffer stores no bytes.
    pub open spec fn after_gen_buffer(self) -> GlModel {
        if self.can_alloc() {
            GlModel {
                next_handle: (self.next_handle + 1) as u32,
                buffers: self.buffers.push(
                    BufferModel { handle: self.next_handle, data: Seq::empty() },
                ),
                ..self
            }
        } else {
            self
        }
    }

    /// Creating a shader object for stage `ty`: empty source, no compile
    /// recorded yet.
    pub open spec fn after_create_shader(self, ty: ShaderType) -> GlModel {
        if self.can_alloc() {
            GlModel {
                next_handle: (self.next_handle + 1) as u32,
                shaders: self.shaders.push(
                    ShaderModel {
                        handle: self.next_handle,
                        stage: ty,
                        source: Seq::empty(),
                        compiled: false,
                        ok: false,
                        log: Seq::empty(),
                        deleted: false,
                    },
                ),
                ..self
            }
        } else {
            self
        }
    }

    /// Creating a program object: nothing attached, no link recorded yet.
    pub open spec fn after_create_program(self) -> GlModel {
        if self.can_alloc() {
            GlModel {
                next_handle: (self.next_handle + 1) as u32,
                programs: self.programs.push(
                    ProgramModel {
                        handle: self.next_handle,
                        attached: Seq::empty(),
                        linked: false,
                        ok: false,
                        log: Seq::empty(),
                        deleted: false,
                    },
                ),
                ..self
            }
        } else {
            self
        }
    }

    /// Assigning source text to shader `h`: the new text fully replaces
    /// the old one.
    pub open spec fn after_set_source(self, h: u32, src: Seq<char>) -> GlModel {
        if self.shader_exists(h) {
            GlModel {
                shaders: self.shaders.update(
                    self.shader_idx(h),
                    ShaderModel { source: src, ..self.shader_at(h) },
                ),
                ..self
            }
        } else {
            self
        }
    }

    /// Compiling shader `h`: the driver's verdict and log are recorded on
    /// the object.
    pub open spec fn after_compile(self, h: u32, ok: bool, log: Seq<char>) -> GlModel {
        if self.shader_exists(h) {
            GlModel {
                shaders: self.shaders.update(
                    self.shader_idx(h),
                    ShaderModel { compiled: true, ok, log, ..self.shader_at(h) },
                ),
                ..self
            }
        } else {
            self
        }
    }

    /// Marking shader `h` for deletion; the record stays, since the
    /// driver defers release while the shader is attached anywhere.
    pub open spec fn after_delete_shader(self, h: u32) -> GlModel {
        if self.shader_exists(h) {
            GlModel {
                shaders: self.shaders.update(
                    self.shader_idx(h),
                    ShaderModel { deleted: true, ..self.shader_at(h) },
                ),
                ..self
            }
        } else {
            self
        }
    }

    /// Attaching shader `s` to program `p`.
    pub open spec fn after_attach(self, p: u32, s: u32) -> GlModel {
        if self.program_exists(p) {
            GlModel {
                programs: self.programs.update(
                    self.program_idx(p),
                    ProgramModel {
                        attached: self.program_at(p).attached.push(s),
                        ..self.program_at(p)
                    },
                ),
                ..self
            }
        } else {
            self
        }
    }

    /// Linking program `p`: the driver's verdict and log are recorded on
    /// the object.
    pub open spec fn after_link(self, p: u32, ok: bool, log: Seq<char>) -> GlModel {
        if self.program_exists(p) {
            GlModel {
                programs: self.programs.update(
                    self.program_idx(p),
                    ProgramModel { linked: true, ok, log, ..self.program_at(p) },
                ),
                ..self
            }
        } else {
            self
        }
    }

    /// Marking program `p` for deletion; the record stays, since the
    /// driver defers release while the program is in use.
    pub open spec fn after_delete_program(self, p: u32) -> GlModel {
        if self.program_exists(p) {
            GlModel {
                programs: self.programs.update(
                    self.program_idx(p),
                    ProgramModel { deleted: true, ..self.program_at(p) },
                ),
                ..self
            }
        } else {
            self
        }
    }

    /// Binding vertex-array `h` as current.
    pub open spec fn after_bind_vao(self, h: u32) -> GlModel {
        GlModel { bound_vao: h, ..self }
    }

    /// Binding buffer `h` to the slot that `ty` selects.
    pub open spec fn after_bind_buffer(self, ty: BufferType, h: u32) -> GlModel {
        match ty {
            BufferType::Array => GlModel { bound_array: h, ..self },
            BufferType::ElementArray => GlModel { bound_element: h, ..self },
        }
    }

    /// Activating program `p` for subsequent draw operations.
    pub open spec fn after_use_program(self, p: u32) -> GlModel {
        GlModel { active_program: p, ..self }
    }

    /// Replacing the full contents of whichever buffer is bound at the
    /// slot that `ty` selects; with the slot clear nothing happens.
    pub open spec fn after_buffer_data(self, ty: BufferType, data: Seq<u8>) -> GlModel {
        let slot = self.bound_buffer(ty);
        if slot != 0 && self.buffer_exists(slot) {
            GlModel {
                buffers: self.buffers.update(
                    self.buffer_idx(slot),
                    BufferModel { handle: slot, data },
                ),
                ..self
            }
        } else {
            self
        }
    }

    /// The combined create–source–compile step for one shader, including
    /// deletion of the shader when its compile failed.
    pub open spec fn after_from_source(
        self,
        ty: ShaderType,
        src: Seq<char>,
        ok: bool,
        log: Seq<char>,
    ) -> GlModel {
        if !self.can_alloc() {
            self
        } else {
            let h = self.next_handle;
            let m = self
                .after_create_shader(ty)
                .after_set_source(h, src)
                .after_compile(h, ok, log);
            if ok {
                m
            } else {
                m.after_delete_shader(h)
            }
        }
    }

    /// The combined build of a program from vertex and fragment source,
    /// with every intermediate resource deleted on each exit path: the
    /// two shaders always, the program whenever the build fails.
    pub open spec fn after_from_vert_frag(
        self,
        vs: Seq<char>,
        fs: Seq<char>,
        vd: VerdictModel,
        fd: VerdictModel,
        ld: VerdictModel,
    ) -> GlModel {
        if !self.can_alloc() {
            self
        } else {
            let hp = self.next_handle;
            let m1 = self.after_create_program();
            let hv = m1.next_handle;
            let m2 = m1.after_from_source(ShaderType::Vertex, vs, vd.ok, vd.log);
            if !m1.can_alloc() || !vd.ok {
                m2.after_delete_program(hp)
            } else {
                let hf = m2.next_handle;
                let m3 = m2.after_from_source(ShaderType::Fragment, fs, fd.ok, fd.log);
                if !m2.can_alloc() || !fd.ok {
                    m3.after_delete_shader(hv).after_delete_program(hp)
                } else {
                    let m4 = m3
                        .after_attach(hp, hv)
                        .after_attach(hp, hf)
                        .after_link(hp, ld.ok, ld.log)
                        .after_delete_shader(hv)
                        .after_delete_shader(hf);
                    if ld.ok {
                        m4
                    } else {
                        m4.after_delete_program(hp)
                    }
                }
            }
        }
    }

    /// What the combined build returns: the program handle on success, or
    /// the stage-prefixed diagnostic text of the first failing step.
    pub open spec fn vert_frag_outcome(
        self,
        vd: VerdictModel,
        fd: VerdictModel,
        ld: VerdictModel,
    ) -> Result<u32, Seq<char>> {
        if !self.can_alloc() {
            Err("Couldn't allocate a program"@)
        } else if self.next_handle + 1 == u32::MAX {
            Err("Vertex Compile Error: "@ + "Couldn't allocate new shader"@)
        } else if !vd.ok {
            Err("Vertex Compile Error: "@ + vd.log)
        } else if self.next_handle + 2 == u32::MAX {
            Err("Fragment Compile Error: "@ + "Couldn't allocate new shader"@)
        } else if !fd.ok {
            Err("Fragment Compile Error: "@ + fd.log)
        } else if !ld.ok {
            Err("Program Link Error: "@ + ld.log)
        } else {
            Ok(self.next_handle)
        }
    }
}

/// The fresh context is well formed.
pub proof fn lemma_init_wf()
    ensures
        GlModel::init().wf(),
{
}

/// Mapping a function over a sequence commutes with appending.
pub proof fn lemma_map_values_push<A, B>(s: Seq<A>, f: spec_fn(A) -> B, x: A)
    ensures
        s.push(x).map_values(f) == s.map_values(f).push(f(x)),
{
    assert(s.push(x).map_values(f) =~= s.map_values(f).push(f(x)));
}

/// Mapping a function over a sequence commutes with a point update.
pub proof fn lemma_map_values_update<A, B>(s: Seq<A>, f: spec_fn(A) -> B, i: int, x: A)
    requires
        0 <= i < s.len(),
    ensures
        s.update(i, x).map_values(f) == s.map_values(f).update(i, f(x)),
{
    assert(s.update(i, x).map_values(f) =~= s.map_values(f).update(i, f(x)));
}

/// With distinct handles, the index of handle `h` in the buffer list is
/// the unique position holding it.
pub proof fn lemma_buffer_idx(m: GlModel, h: u32)
    requires
        buffer_handles_wf(m.buffers, m.next_handle),
        m.buffer_exists(h),
    ensures
        0 <= m.buffer_idx(h) < m.buffers.len(),
        m.buffers[m.buffer_idx(h)].handle == h,
        m.buffer_at(h).handle == h,
        forall|i: int|
            0 <= i < m.buffers.len() && m.buffers[i].handle == h ==> i == m.buffer_idx(h),
{
    let idx = m.buffer_idx(h);
    assert(0 <= idx < m.buffers.len() && m.buffers[idx].handle == h);
    assert forall|i: int|
        0 <= i < m.buffers.len() && m.buffers[i].handle == h implies i == idx by {
        if i != idx {
            assert(m.buffers[i].handle != m.buffers[idx].handle);
        }
    };
}

/// With distinct handles, the index of handle `h` in the shader list is
/// the unique position holding it.
pub proof fn lemma_shader_idx(m: GlModel, h: u32)
    requires
        shader_handles_wf(m.shaders, m.next_handle),
        m.shader_exists(h),
    ensures
        0 <= m.shader_idx(h) < m.shaders.len(),
        m.shaders[m.shader_idx(h)].handle == h,
        m.shader_at(h).handle == h,
        forall|i: int|
            0 <= i < m.shaders.len() && m.shaders[i].handle == h ==> i == m.shader_idx(h),
{
    let idx = m.shader_idx(h);
    assert(0 <= idx < m.shaders.len() && m.shaders[idx].handle == h);
    assert forall|i: int|
        0 <= i < m.shaders.len() && m.shaders[i].handle == h implies i == idx by {
        if i != idx {
            assert(m.shaders[i].handle != m.shaders[idx].handle);
        }
    };
}

/// With distinct handles, the index of handle `h` in the program list is
/// the unique position holding it.
pub proof fn lemma_program_idx(m: GlModel, h: u32)
    requires
        program_handles_wf(m.programs, m.next_handle),
        m.program_exists(h),
    ensures
        0 <= m.program_idx(h) < m.programs.len(),
        m.programs[m.program_idx(h)].handle == h,
        m.program_at(h).handle == h,
        forall|i: int|
            0 <= i < m.programs.len() && m.programs[i].handle == h ==> i == m.program_idx(h),
{
    let idx = m.program_idx(h);
    assert(0 <= idx < m.programs.len() && m.programs[idx].handle == h);
    assert forall|i: int|
        0 <= i < m.programs.len() && m.programs[i].handle == h implies i == idx by {
        if i != idx {
            assert(m.programs[i].handle != m.programs[idx].handle);
        }
    };
}

/// Generating a vertex-array object preserves well-formedness; the new
/// handle is live, and all previously live handles stay live.
pub proof fn lemma_gen_vao(m: GlModel)
    requires
        m.wf(),
    ensures
        m.after_gen_vao().wf(),
        m.can_alloc() ==> m.after_gen_vao().vao_live(m.next_handle),
        forall|h: u32| #[trigger] m.vao_live(h) ==> m.after_gen_vao().vao_live(h),
{
    if m.can_alloc() {
        let m2 = m.after_gen_vao();
        let n = m.vaos.len() as int;
        assert forall|h: u32| #[trigger] m.vao_live(h) implies m2.vao_live(h) by {
            let i = choose|i: int| 0 <= i < m.vaos.len() && m.vaos[i] == h;
            assert(m2.vaos[i] == h);
        };
        assert(m2.vaos[n] == m.next_handle);
        assert(vao_handles_wf(m2.vaos, m2.next_handle)) by {
            assert forall|i: int| 0 <= i < m2.vaos.len() implies 0 < #[trigger] m2.vaos[i]
                < m2.next_handle by {
                if i < n {
                    assert(m2.vaos[i] == m.vaos[i]);
                }
            };
        };
        if m.bound_vao != 0 {
            assert(m.vao_live(m.bound_vao));
        }
        assert(0 < m2.next_handle);
        assert(vao_handles_wf(m2.vaos, m2.next_handle));
        assert(buffer_handles_wf(m2.buffers, m2.next_handle));
        assert(shader_handles_wf(m2.shaders, m2.next_handle));
        assert(program_handles_wf(m2.programs, m2.next_handle));
        assert(m2.bound_vao == 0 || m2.vao_live(m2.bound_vao));
        assert(m2.bound_array == 0 || m2.buffer_exists(m2.bound_array));
        assert(m2.bound_element == 0 || m2.buffer_exists(m2.bound_element));
        assert(m2.active_program == 0 || m2.program_exists(m2.active_program));
        assert(m2.wf());
    } else {
        assert(m.after_gen_vao() == m);
    }
}

/// Generating a buffer object preserves well-formedness; the new record
/// is empty, and every other buffer record is untouched.
pub proof fn lemma_gen_buffer(m: GlModel)
    requires
        m.wf(),
    ensures
        m.after_gen_buffer().wf(),
        m.can_alloc() ==> m.after_gen_buffer().buffer_exists(m.next_handle)
            && m.after_gen_buffer().buffer_at(m.next_handle)
                == (BufferModel { handle: m.next_handle, data: Seq::<u8>::empty() }),
        forall|h: u32| #[trigger] m.buffer_exists(h)
            ==> m.after_gen_buffer().buffer_exists(h)
                && m.after_gen_buffer().buffer_at(h) == m.buffer_at(h),
        forall|h: u32| #[trigger] m.after_gen_buffer().buffer_exists(h)
            ==> h == m.fresh_handle() || m.buffer_exists(h),
{
    if m.can_alloc() {
        let m2 = m.after_gen_buffer();
        let n = m.buffers.len() as int;
        assert(m2.buffers[n].handle == m.next_handle);
        assert(buffer_handles_wf(m2.buffers, m2.next_handle)) by {
            assert forall|i: int| 0 <= i < m2.buffers.len() implies 0
                < #[trigger] m2.buffers[i].handle < m2.next_handle by {
                if i < n {
                    assert(m2.buffers[i] == m.buffers[i]);
                }
            };
        };
        if m.bound_array != 0 {
            assert(m.buffer_exists(m.bound_array));
            let i = m.buffer_idx(m.bound_array);
            assert(m2.buffers[i].handle == m.bound_array);
        }
        if m.bound_element != 0 {
            assert(m.buffer_exists(m.bound_element));
            let i = m.buffer_idx(m.bound_element);
            assert(m2.buffers[i].handle == m.bound_element);
        }
        lemma_buffer_idx(m2, m.next_handle);
        assert forall|h: u32| #[trigger] m.buffer_exists(h) implies m2.buffer_exists(h)
            && m2.buffer_at(h) == m.buffer_at(h) by {
            lemma_buffer_idx(m, h);
            let i = m.buffer_idx(h);
            assert(m2.buffers[i].handle == h);
            lemma_buffer_idx(m2, h);
            assert(m2.buffer_idx(h) == i);
        };
        assert forall|h: u32| #[trigger] m2.buffer_exists(h)
            implies h == m.fresh_handle() || m.buffer_exists(h) by {
            let i = choose|i: int| 0 <= i < m2.buffers.len() && m2.buffers[i].handle == h;
            if i < n {
                assert(m.buffers[i].handle == h);
            }
        };
        assert(0 < m2.next_handle);
        assert(vao_handles_wf(m2.vaos, m2.next_handle));
        assert(buffer_handles_wf(m2.buffers, m2.next_handle));
        assert(shader_handles_wf(m2.shaders, m2.next_handle));
        assert(program_handles_wf(m2.programs, m2.next_handle));
        assert(m2.bound_vao == 0 || m2.vao_live(m2.bound_vao));
        assert(m2.bound_array == 0 || m2.buffer_exists(m2.bound_array));
        assert(m2.bound_element == 0 || m2.buffer_exists(m2.bound_element));
        assert(m2.active_program == 0 || m2.program_exists(m2.active_program));
        assert(m2.wf());
    } else {
        assert(m.after_gen_buffer() == m);
    }
}

/// Creating a shader object preserves well-formedness; the new record is
/// fresh for stage `ty`, and every other shader record is untouched.
pub proof fn lemma_create_shader(m: GlModel, ty: ShaderType)
    requires
        m.wf(),
    ensures
        m.after_create_shader(ty).wf(),
        m.can_alloc() ==> m.after_create_shader(ty).shader_exists(m.next_handle)
            && m.after_create_shader(ty).shader_at(m.next_handle) == (ShaderModel {
                handle: m.next_handle,
                stage: ty,
                source: Seq::<char>::empty(),
                compiled: false,
                ok: false,
                log: Seq::<char>::empty(),
                deleted: false,
            }),
        forall|h: u32| #[trigger] m.shader_exists(h)
            ==> m.after_create_shader(ty).shader_exists(h)
                && m.after_create_shader(ty).shader_at(h) == m.shader_at(h),
        forall|h: u32| #[trigger] m.after_create_shader(ty).shader_exists(h)
            ==> h == m.fresh_handle() || m.shader_exists(h),
{
    if m.can_alloc() {
        let m2 = m.after_create_shader(ty);
        let n = m.shaders.len() as int;
        assert(m2.shaders[n].handle == m.next_handle);
        assert(shader_handles_wf(m2.shaders, m2.next_handle)) by {
            assert forall|i: int| 0 <= i < m2.shaders.len() implies 0
                < #[trigger] m2.shaders[i].handle < m2.next_handle by {
                if i < n {
                    assert(m2.shaders[i] == m.shaders[i]);
                }
            };
        };
        lemma_shader_idx(m2, m.next_handle);
        assert forall|h: u32| #[trigger] m.shader_exists(h) implies m2.shader_exists(h)
            && m2.shader_at(h) == m.shader_at(h) by {
            lemma_shader_idx(m, h);
            let i = m.shader_idx(h);
            assert(m2.shaders[i].handle == h);
            lemma_shader_idx(m2, h);
            assert(m2.shader_idx(h) == i);
        };
        assert forall|h: u32| #[trigger] m2.shader_exists(h)
            implies h == m.fresh_handle() || m.shader_exists(h) by {
            let i = choose|i: int| 0 <= i < m2.shaders.len() && m2.shaders[i].handle == h;
            if i < n {
                assert(m.shaders[i].handle == h);
            }
        };
        assert(0 < m2.next_handle);
        assert(vao_handles_wf(m2.vaos, m2.next_handle));
        assert(buffer_handles_wf(m2.buffers, m2.next_handle));
        assert(shader_handles_wf(m2.shaders, m2.next_handle));
        assert(program_handles_wf(m2.programs, m2.next_handle));
        assert(m2.bound_vao == 0 || m2.vao_live(m2.bound_vao));
        assert(m2.bound_array == 0 || m2.buffer_exists(m2.bound_array));
        assert(m2.bound_element == 0 || m2.buffer_exists(m2.bound_element));
        assert(m2.active_program == 0 || m2.program_exists(m2.active_program));
        assert(m2.wf());
    } else {
        assert(m.after_create_shader(ty) == m);
    }
}

/// Creating a program object preserves well-formedness; the new record
/// is fresh, and every other program record is untouched.
pub proof fn lemma_create_program(m: GlModel)
    requires
        m.wf(),
    ensures
        m.after_create_program().wf(),
        m.can_alloc() ==> m.after_create_program().program_exists(m.next_handle)
            && m.after_create_program().program_at(m.next_handle) == (ProgramModel {
                handle: m.next_handle,
                attached: Seq::<u32>::empty(),
                linked: false,
                ok: false,
                log: Seq::<char>::empty(),
                deleted: false,
            }),
        forall|h: u32| #[trigger] m.program_exists(h)
            ==> m.after_create_program().program_exists(h)
                && m.after_create_program().program_at(h) == m.program_at(h),
        forall|h: u32| #[trigger] m.after_create_program().program_exists(h)
            ==> h == m.fresh_handle() || m.program_exists(h),
{
    if m.can_alloc() {
        let m2 = m.after_create_program();
        let n = m.programs.len() as int;
        assert(m2.programs[n].handle == m.next_handle);
        assert(program_handles_wf(m2.programs, m2.next_handle)) by {
            assert forall|i: int| 0 <= i < m2.programs.len() implies 0
                < #[trigger] m2.programs[i].handle < m2.next_handle by {
                if i < n {
                    assert(m2.programs[i] == m.programs[i]);
                }
            };
        };
        if m.active_program != 0 {
            assert(m.program_exists(m.active_program));
            let i = m.program_idx(m.active_program);
            assert(m2.programs[i].handle == m.active_program);
        }
        lemma_program_idx(m2, m.next_handle);
        assert forall|h: u32| #[trigger] m.program_exists(h) implies m2.program_exists(h)
            && m2.program_at(h) == m.program_at(h) by {
            lemma_program_idx(m, h);
            let i = m.program_idx(h);
            assert(m2.programs[i].handle == h);
            lemma_program_idx(m2, h);
            assert(m2.program_idx(h) == i);
        };
        assert forall|h: u32| #[trigger] m2.program_exists(h)
            implies h == m.fresh_handle() || m.program_exists(h) by {
            let i = choose|i: int| 0 <= i < m2.programs.len() && m2.programs[i].handle == h;
            if i < n {
                assert(m.programs[i].handle == h);
            }
        };
        assert(0 < m2.next_handle);
        assert(vao_handles_wf(m2.vaos, m2.next_handle));
        assert(buffer_handles_wf(m2.buffers, m2.next_handle));
        assert(shader_handles_wf(m2.shaders, m2.next_handle));
        assert(program_handles_wf(m2.programs, m2.next_handle));
        assert(m2.bound_vao == 0 || m2.vao_live(m2.bound_vao));
        assert(m2.bound_array == 0 || m2.buffer_exists(m2.bound_array));
        assert(m2.bound_element == 0 || m2.buffer_exists(m2.bound_element));
        assert(m2.active_program == 0 || m2.program_exists(m2.active_program));
        assert(m2.wf());
    } else {
        assert(m.after_create_program() == m);
    }
}

/// Updating the shader record at handle `h` (keeping its handle)
/// preserves well-formedness and leaves every other record untouched.
pub proof fn lemma_update_shader(m: GlModel, h: u32, r: ShaderModel)
    requires
        m.wf(),
        m.shader_exists(h),
        r.handle == h,
    ensures
        ({
            let m2 = GlModel { shaders: m.shaders.update(m.shader_idx(h), r), ..m };
            &&& m2.wf()
            &&& m2.shader_exists(h)
            &&& m2.shader_at(h) == r
            &&& forall|g: u32| #[trigger] m2.shader_exists(g) <==> m.shader_exists(g)
            &&& forall|g: u32|
                g != h && #[trigger] m.shader_exists(g) ==> m2.shader_at(g) == m.shader_at(g)
        }),
{
    lemma_shader_idx(m, h);
    let idx = m.shader_idx(h);
    let m2 = GlModel { shaders: m.shaders.update(idx, r), ..m };
    assert forall|g: u32| #[trigger] m2.shader_exists(g) implies m.shader_exists(g) by {
        let i = choose|i: int| 0 <= i < m2.shaders.len() && m2.shaders[i].handle == g;
        if i == idx {
            assert(m.shaders[idx].handle == g);
        } else {
            assert(m.shaders[i].handle == g);
        }
    };
    assert forall|g: u32| #[trigger] m.shader_exists(g) implies m2.shader_exists(g) by {
        lemma_shader_idx(m, g);
        let i = m.shader_idx(g);
        if i == idx {
            assert(m2.shaders[idx].handle == g);
        } else {
            assert(m2.shaders[i].handle == g);
        }
    };
    assert(shader_handles_wf(m2.shaders, m2.next_handle));
    lemma_shader_idx(m2, h);
    assert(m2.shader_idx(h) == idx);
    assert forall|g: u32|
        g != h && #[trigger] m.shader_exists(g) implies m2.shader_at(g) == m.shader_at(g) by {
        lemma_shader_idx(m, g);
        let i = m.shader_idx(g);
        assert(i != idx);
        assert(m2.shaders[i].handle == g);
        lemma_shader_idx(m2, g);
        assert(m2.shader_idx(g) == i);
    };
}

/// Updating the program record at handle `p` (keeping its handle)
/// preserves well-formedness and leaves every other record untouched.
pub proof fn lemma_update_program(m: GlModel, p: u32, r: ProgramModel)
    requires
        m.wf(),
        m.program_exists(p),
        r.handle == p,
    ensures
        ({
            let m2 = GlModel { programs: m.programs.update(m.program_idx(p), r), ..m };
            &&& m2.wf()
            &&& m2.program_exists(p)
            &&& m2.program_at(p) == r
            &&& forall|g: u32| #[trigger] m2.program_exists(g) <==> m.program_exists(g)
            &&& forall|g: u32|
                g != p && #[trigger] m.program_exists(g) ==> m2.program_at(g) == m.program_at(g)
        }),
{
    lemma_program_idx(m, p);
    let idx = m.program_idx(p);
    let m2 = GlModel { programs: m.programs.update(idx, r), ..m };
    assert forall|g: u32| #[trigger] m2.program_exists(g) implies m.program_exists(g) by {
        let i = choose|i: int| 0 <= i < m2.programs.len() && m2.programs[i].handle == g;
        if i == idx {
            assert(m.programs[idx].handle == g);
        } else {
            assert(m.programs[i].handle == g);
        }
    };
    assert forall|g: u32| #[trigger] m.program_exists(g) implies m2.program_exists(g) by {
        lemma_program_idx(m, g);
        let i = m.program_idx(g);
        if i == idx {
            assert(m2.programs[idx].handle == g);
        } else {
            assert(m2.programs[i].handle == g);
        }
    };
    assert(program_handles_wf(m2.programs, m2.next_handle));
    lemma_program_idx(m2, p);
    assert(m2.program_idx(p) == idx);
    assert forall|g: u32|
        g != p && #[trigger] m.program_exists(g) implies m2.program_at(g) == m.program_at(g) by {
        lemma_program_idx(m, g);
        let i = m.program_idx(g);
        assert(i != idx);
        assert(m2.programs[i].handle == g);
        lemma_program_idx(m2, g);
        assert(m2.program_idx(g) == i);
    };
}

/// Updating the buffer record at handle `b` (keeping its handle)
/// preserves well-formedness and leaves every other record untouched.
pub proof fn lemma_update_buffer(m: GlModel, b: u32, r: BufferModel)
    requires
        m.wf(),
        m.buffer_exists(b),
        r.handle == b,
    ensures
        ({
            let m2 = GlModel { buffers: m.buffers.update(m.buffer_idx(b), r), ..m };
            &&& m2.wf()
            &&& m2.buffer_exists(b)
            &&& m2.buffer_at(b) == r
            &&& forall|g: u32| #[trigger] m2.buffer_exists(g) <==> m.buffer_exists(g)
            &&& forall|g: u32|
                g != b && #[trigger] m.buffer_exists(g) ==> m2.buffer_at(g) == m.buffer_at(g)
        }),
{
    lemma_buffer_idx(m, b);
    let idx = m.buffer_idx(b);
    let m2 = GlModel { buffers: m.buffers.update(idx, r), ..m };
    assert forall|g: u32| #[trigger] m2.buffer_exists(g) implies m.buffer_exists(g) by {
        let i = choose|i: int| 0 <= i < m2.buffers.len() && m2.buffers[i].handle == g;
        if i == idx {
            assert(m.buffers[idx].handle == g);
        } else {
            assert(m.buffers[i].handle == g);
        }
    };
    assert forall|g: u32| #[trigger] m.buffer_exists(g) implies m2.buffer_exists(g) by {
        lemma_buffer_idx(m, g);
        let i = m.buffer_idx(g);
        if i == idx {
            assert(m2.buffers[idx].handle == g);
        } else {
            assert(m2.buffers[i].handle == g);
        }
    };
    assert(buffer_handles_wf(m2.buffers, m2.next_handle));
    lemma_buffer_idx(m2, b);
    assert(m2.buffer_idx(b) == idx);
    assert forall|g: u32|
        g != b && #[trigger] m.buffer_exists(g) implies m2.buffer_at(g) == m.buffer_at(g) by {
        lemma_buffer_idx(m, g);
        let i = m.buffer_idx(g);
        assert(i != idx);
        assert(m2.buffers[i].handle == g);
        lemma_buffer_idx(m2, g);
        assert(m2.buffer_idx(g) == i);
    };
}

/// A state differing from a well-formed one only in its binding slots,
/// each slot clear or holding a live handle of the right kind, is well
/// formed.
pub proof fn lemma_wf_slots(m: GlModel, m2: GlModel)
    requires
        m.wf(),
        m2.next_handle == m.next_handle,
        m2.vaos == m.vaos,
        m2.buffers == m.buffers,
        m2.shaders == m.shaders,
        m2.programs == m.programs,
        m2.bound_vao == 0 || m.vao_live(m2.bound_vao),
        m2.bound_array == 0 || m.buffer_exists(m2.bound_array),
        m2.bound_element == 0 || m.buffer_exists(m2.bound_element),
        m2.active_program == 0 || m.program_exists(m2.active_program),
    ensures
        m2.wf(),
{
    assert(vao_handles_wf(m2.vaos, m2.next_handle));
    assert(buffer_handles_wf(m2.buffers, m2.next_handle));
    assert(shader_handles_wf(m2.shaders, m2.next_handle));
    assert(program_handles_wf(m2.programs, m2.next_handle));
    assert(m2.wf());
}

/// Removing position `i` and inserting `x` back at `i` is a point
/// update.
pub proof fn lemma_remove_insert<A>(s: Seq<A>, i: int, x: A)
    requires
        0 <= i < s.len(),
    ensures
        s.remove(i).insert(i, x) == s.update(i, x),
{
    assert(s.remove(i).insert(i, x) =~= s.update(i, x));
}

/// Two well-formed states with the same program records agree on
/// program lookup.
pub proof fn lemma_same_programs(a: GlModel, b: GlModel, h: u32)
    requires
        a.wf(),
        b.wf(),
        a.programs == b.programs,
        a.program_exists(h),
    ensures
        b.program_exists(h),
        b.program_at(h) == a.program_at(h),
{
    lemma_program_idx(a, h);
    let i = a.program_idx(h);
    assert(b.programs[i].handle == h);
    lemma_program_idx(b, h);
}

/// Two well-formed states with the same shader records agree on shader
/// lookup.
pub proof fn lemma_same_shaders(a: GlModel, b: GlModel, h: u32)
    requires
        a.wf(),
        b.wf(),
        a.shaders == b.shaders,
        a.shader_exists(h),
    ensures
        b.shader_exists(h),
        b.shader_at(h) == a.shader_at(h),
{
    lemma_shader_idx(a, h);
    let i = a.shader_idx(h);
    assert(b.shaders[i].handle == h);
    lemma_shader_idx(b, h);
}

/// Full characterization of the combined create–source–compile step:
/// it adds exactly one shader record, fresh for the requested stage,
/// carrying the driver's verdict, and deleted precisely when the
/// compile failed; every prior shader record is untouched.
pub proof fn lemma_from_source(m: GlModel, ty: ShaderType, src: Seq<char>, ok: bool, log: Seq<char>)
    requires
        m.wf(),
        m.can_alloc(),
    ensures
        ({
            let m2 = m.after_from_source(ty, src, ok, log);
            &&& m2.wf()
            &&& m.same_but_shaders(m2)
            &&& m2.next_handle == m.next_handle + 1
            &&& m2.shader_exists(m.next_handle)
            &&& m2.shader_at(m.next_handle) == (ShaderModel {
                handle: m.next_handle,
                stage: ty,
                source: src,
                compiled: true,
                ok,
                log,
                deleted: !ok,
            })
            &&& forall|g: u32| #[trigger] m.shader_exists(g)
                ==> m2.shader_exists(g) && m2.shader_at(g) == m.shader_at(g)
            &&& forall|g: u32| #[trigger] m2.shader_exists(g)
                ==> g == m.next_handle || m.shader_exists(g)
        }),
{
    let h = m.next_handle;
    let ma = m.after_create_shader(ty);
    lemma_create_shader(m, ty);
    lemma_update_shader(ma, h, ShaderModel { source: src, ..ma.shader_at(h) });
    let mb = ma.after_set_source(h, src);
    lemma_update_shader(mb, h, ShaderModel { compiled: true, ok, log, ..mb.shader_at(h) });
    let mc = mb.after_compile(h, ok, log);
    let m2 = m.after_from_source(ty, src, ok, log);
    if !ok {
        lemma_update_shader(mc, h, ShaderModel { deleted: true, ..mc.shader_at(h) });
    }
    assert forall|g: u32| #[trigger] m.shader_exists(g)
        implies m2.shader_exists(g) && m2.shader_at(g) == m.shader_at(g) by {
        lemma_shader_idx(m, g);
        assert(g != h);
        assert(ma.shader_exists(g) && ma.shader_at(g) == m.shader_at(g));
        assert(mb.shader_exists(g) && mb.shader_at(g) == ma.shader_at(g));
        assert(mc.shader_exists(g) && mc.shader_at(g) == mb.shader_at(g));
    };
    assert forall|g: u32| #[trigger] m2.shader_exists(g)
        implies g == m.next_handle || m.shader_exists(g) by {
        if g != h {
            assert(mc.shader_exists(g));
            assert(mb.shader_exists(g));
            assert(ma.shader_exists(g));
        }
    };
}

/// Full characterization of the combined build: on success the program
/// record is linked with both stage shaders attached and both marked
/// deleted; on failure the program this call created is marked deleted;
/// and no shader this call created ever survives without its deletion
/// mark, whatever the outcome.
pub proof fn lemma_from_vert_frag(
    m: GlModel,
    vs: Seq<char>,
    fs: Seq<char>,
    vd: VerdictModel,
    fd: VerdictModel,
    ld: VerdictModel,
)
    requires
        m.wf(),
    ensures
        ({
            let m2 = m.after_from_vert_frag(vs, fs, vd, fd, ld);
            let out = m.vert_frag_outcome(vd, fd, ld);
            let hp = m.next_handle;
            let hv = (m.next_handle + 1) as u32;
            let hf = (m.next_handle + 2) as u32;
            &&& m2.wf()
            &&& m2.vaos == m.vaos
            &&& m2.buffers == m.buffers
            &&& m2.bound_vao == m.bound_vao
            &&& m2.bound_array == m.bound_array
            &&& m2.bound_element == m.bound_element
            &&& m2.active_program == m.active_program
            &&& out is Ok ==> out->Ok_0 == hp && m2.program_exists(hp)
                && m2.program_at(hp) == (ProgramModel {
                    handle: hp,
                    attached: seq![hv, hf],
                    linked: true,
                    ok: true,
                    log: ld.log,
                    deleted: false,
                })
                && m2.shader_exists(hv)
                && m2.shader_at(hv) == (ShaderModel {
                    handle: hv,
                    stage: ShaderType::Vertex,
                    source: vs,
                    compiled: true,
                    ok: true,
                    log: vd.log,
                    deleted: true,
                })
                && m2.shader_exists(hf)
                && m2.shader_at(hf) == (ShaderModel {
                    handle: hf,
                    stage: ShaderType::Fragment,
                    source: fs,
                    compiled: true,
                    ok: true,
                    log: fd.log,
                    deleted: true,
                })
            &&& out is Err && m.can_alloc()
                ==> m2.program_exists(hp) && m2.program_at(hp).deleted
            &&& forall|g: u32|
                #[trigger] m2.shader_exists(g) && !m.shader_exists(g)
                    ==> m2.shader_at(g).deleted
        }),
{
    let m2 = m.after_from_vert_frag(vs, fs, vd, fd, ld);
    let out = m.vert_frag_outcome(vd, fd, ld);
    let hp = m.next_handle;
    let hv = (m.next_handle + 1) as u32;
    let hf = (m.next_handle + 2) as u32;
    if !m.can_alloc() {
        assert(m2 == m);
        assert forall|g: u32|
            #[trigger] m2.shader_exists(g) && !m.shader_exists(g)
                implies m2.shader_at(g).deleted by {};
    } else {
        let ma = m.after_create_program();
        lemma_create_program(m);
        if !ma.can_alloc() || !vd.ok {
            let mb = ma.after_from_source(ShaderType::Vertex, vs, vd.ok, vd.log);
            if ma.can_alloc() {
                lemma_from_source(ma, ShaderType::Vertex, vs, vd.ok, vd.log);
                lemma_same_programs(ma, mb, hp);
            } else {
                assert(mb == ma);
            }
            lemma_update_program(mb, hp, ProgramModel { deleted: true, ..mb.program_at(hp) });
            assert(m2 == mb.after_delete_program(hp));
            assert forall|g: u32|
                #[trigger] m2.shader_exists(g) && !m.shader_exists(g)
                    implies m2.shader_at(g).deleted by {
                lemma_same_shaders(m2, mb, g);
                if ma.can_alloc() {
                    if g != ma.next_handle {
                        assert(ma.shader_exists(g));
                        lemma_same_shaders(ma, m, g);
                        assert(false);
                    } else {
                        assert(mb.shader_at(g).deleted);
                        assert(m2.shader_at(g) == mb.shader_at(g));
                    }
                } else {
                    lemma_same_shaders(mb, m, g);
                    assert(false);
                }
            };
        } else {
            lemma_from_source(ma, ShaderType::Vertex, vs, vd.ok, vd.log);
            let mb = ma.after_from_source(ShaderType::Vertex, vs, vd.ok, vd.log);
            lemma_same_programs(ma, mb, hp);
            if !mb.can_alloc() || !fd.ok {
                let mc = mb.after_from_source(ShaderType::Fragment, fs, fd.ok, fd.log);
                if mb.can_alloc() {
                    lemma_from_source(mb, ShaderType::Fragment, fs, fd.ok, fd.log);
                } else {
                    assert(mc == mb);
                }
                assert(mc.shader_exists(hv) && mc.shader_at(hv) == mb.shader_at(hv));
                lemma_update_shader(mc, hv, ShaderModel { deleted: true, ..mc.shader_at(hv) });
                let md = mc.after_delete_shader(hv);
                lemma_same_programs(mb, mc, hp);
                lemma_same_programs(mc, md, hp);
                lemma_update_program(md, hp, ProgramModel { deleted: true, ..md.program_at(hp) });
                assert(m2 == md.after_delete_program(hp));
                assert forall|g: u32|
                    #[trigger] m2.shader_exists(g) && !m.shader_exists(g)
                        implies m2.shader_at(g).deleted by {
                    lemma_same_shaders(m2, md, g);
                    if g == hv {
                        assert(md.shader_at(hv).deleted);
                    } else {
                        assert(md.shader_exists(g) && md.shader_at(g) == mc.shader_at(g));
                        assert(mc.shader_exists(g));
                        if mb.can_alloc() {
                            if g == mb.next_handle {
                                assert(mc.shader_at(g).deleted);
                            } else {
                                assert(mb.shader_exists(g));
                                assert(g != ma.next_handle);
                                assert(ma.shader_exists(g));
                                lemma_same_shaders(ma, m, g);
                                assert(false);
                            }
                        } else {
                            assert(mb.shader_exists(g));
                            assert(g != ma.next_handle);
                            assert(ma.shader_exists(g));
                            lemma_same_shaders(ma, m, g);
                            assert(false);
                        }
                    }
                };
            } else {
                lemma_from_source(mb, ShaderType::Fragment, fs, fd.ok, fd.log);
                let mc = mb.after_from_source(ShaderType::Fragment, fs, fd.ok, fd.log);
                lemma_same_programs(mb, mc, hp);
                assert(mc.program_at(hp).attached == Seq::<u32>::empty());
                lemma_update_program(
                    mc,
                    hp,
                    ProgramModel {
                        attached: mc.program_at(hp).attached.push(hv),
                        ..mc.program_at(hp)
                    },
                );
                let md = mc.after_attach(hp, hv);
                lemma_update_program(
                    md,
                    hp,
                    ProgramModel {
                        attached: md.program_at(hp).attached.push(hf),
                        ..md.program_at(hp)
                    },
                );
                let me_ = md.after_attach(hp, hf);
                lemma_update_program(
                    me_,
                    hp,
                    ProgramModel { linked: true, ok: ld.ok, log: ld.log, ..me_.program_at(hp) },
                );
                let mf = me_.after_link(hp, ld.ok, ld.log);
                assert(mf.program_at(hp).attached =~= seq![hv, hf]);
                assert(mc.shader_exists(hv) && mc.shader_at(hv) == mb.shader_at(hv));
                lemma_same_shaders(mc, md, hv);
                lemma_same_shaders(md, me_, hv);
                lemma_same_shaders(me_, mf, hv);
                lemma_same_shaders(mc, md, hf);
                lemma_same_shaders(md, me_, hf);
                lemma_same_shaders(me_, mf, hf);
                lemma_update_shader(mf, hv, ShaderModel { deleted: true, ..mf.shader_at(hv) });
                let mg = mf.after_delete_shader(hv);
                assert(mg.shader_exists(hf) && mg.shader_at(hf) == mf.shader_at(hf));
                lemma_update_shader(mg, hf, ShaderModel { deleted: true, ..mg.shader_at(hf) });
                let mh = mg.after_delete_shader(hf);
                lemma_same_programs(mf, mg, hp);
                lemma_same_programs(mg, mh, hp);
                if ld.ok {
                    assert(m2 == mh);
                } else {
                    lemma_update_program(
                        mh,
                        hp,
                        ProgramModel { deleted: true, ..mh.program_at(hp) },
                    );
                    assert(m2 == mh.after_delete_program(hp));
                }
                assert(m2.shader_exists(hv) && m2.shader_at(hv) == mh.shader_at(hv)) by {
                    lemma_same_shaders(mh, m2, hv);
                }
                assert(m2.shader_exists(hf) && m2.shader_at(hf) == mh.shader_at(hf)) by {
                    lemma_same_shaders(mh, m2, hf);
                }
                assert forall|g: u32|
                    #[trigger] m2.shader_exists(g) && !m.shader_exists(g)
                        implies m2.shader_at(g).deleted by {
                    lemma_same_shaders(m2, mh, g);
                    if g == hv {
                        assert(mh.shader_at(hv).deleted);
                    } else if g == hf {
                        assert(mh.shader_at(hf).deleted);
                    } else {
                        assert(mh.shader_exists(g));
                        assert(mg.shader_exists(g));
                        assert(mf.shader_exists(g));
                        lemma_same_shaders(mf, mc, g);
                        assert(mc.shader_exists(g));
                        assert(g != mb.next_handle);
                        assert(mb.shader_exists(g));
                        assert(g != ma.next_handle);
                        assert(ma.shader_exists(g));
                        lemma_same_shaders(ma, m, g);
                        assert(false);
                    }
                };
            }
        }
    }
}

} // verus!
