//! Library-level laws, stated over the driver model and proved once for
//! every well-formed context state.

use vstd::prelude::*;
use crate::gl::ShaderType;
use crate::model::{GlModel, VerdictModel, BufferModel, ShaderModel, ProgramModel};
use crate::model::{
    lemma_from_vert_frag, lemma_shader_idx, lemma_update_buffer, lemma_update_shader,
};

verus! {

/// For every source pair whose compiles and link all succeed, the
/// combined build returns a program whose link status reads true, with
/// both stage shaders attached, and no shader the build created is left
/// without its deletion mark.
pub proof fn build_success_is_clean(
    m: GlModel,
    vs: Seq<char>,
    fs: Seq<char>,
    vd: VerdictModel,
    fd: VerdictModel,
    ld: VerdictModel,
)
    requires
        m.wf(),
        m.vert_frag_outcome(vd, fd, ld) is Ok,
    ensures
        ({
            let m2 = m.after_from_vert_frag(vs, fs, vd, fd, ld);
            let h = m.vert_frag_outcome(vd, fd, ld)->Ok_0;
            &&& h != 0
            &&& m2.program_exists(h)
            &&& m2.program_at(h).linked
            &&& m2.program_at(h).ok
            &&& !m2.program_at(h).deleted
            &&& m2.program_at(h).attached == seq![(h + 1) as u32, (h + 2) as u32]
            &&& m2.shader_exists((h + 1) as u32) && m2.shader_at((h + 1) as u32).deleted
            &&& m2.shader_exists((h + 2) as u32) && m2.shader_at((h + 2) as u32).deleted
        }),
{
    lemma_from_vert_frag(m, vs, fs, vd, fd, ld);
}

/// Every failing combined build tears its partial state down: the
/// program it created (when allocation got that far) is marked deleted,
/// and so is every shader it created.  The binding slots and the active
/// program are never touched, so no failed build leaves a program bound
/// as current.
pub proof fn build_failure_is_clean(
    m: GlModel,
    vs: Seq<char>,
    fs: Seq<char>,
    vd: VerdictModel,
    fd: VerdictModel,
    ld: VerdictModel,
)
    requires
        m.wf(),
        m.vert_frag_outcome(vd, fd, ld) is Err,
    ensures
        ({
            let m2 = m.after_from_vert_frag(vs, fs, vd, fd, ld);
            &&& m.can_alloc() ==> m2.program_exists(m.next_handle)
                && m2.program_at(m.next_handle).deleted
            &&& forall|g: u32|
                #[trigger] m2.shader_exists(g) && !m.shader_exists(g)
                    ==> m2.shader_at(g).deleted
            &&& m2.active_program == m.active_program
            &&& m2.bound_vao == m.bound_vao
            &&& m2.bound_array == m.bound_array
            &&& m2.bound_element == m.bound_element
        }),
{
    lemma_from_vert_frag(m, vs, fs, vd, fd, ld);
}

/// Assigning source text is idempotent in its effect: a second
/// assignment fully replaces the first, leaving the state that a single
/// assignment of the second text would have left.
pub proof fn set_source_replaces(m: GlModel, h: u32, s1: Seq<char>, s2: Seq<char>)
    requires
        m.wf(),
        m.shader_exists(h),
    ensures
        m.after_set_source(h, s1).after_set_source(h, s2) == m.after_set_source(h, s2),
        m.after_set_source(h, s1).after_set_source(h, s2).shader_at(h).source == s2,
{
    lemma_shader_idx(m, h);
    let i = m.shader_idx(h);
    lemma_update_shader(m, h, ShaderModel { source: s1, ..m.shader_at(h) });
    let a = m.after_set_source(h, s1);
    assert(a.shader_idx(h) == i) by {
        assert(a.shaders[i].handle == h);
        lemma_shader_idx(a, h);
    }
    lemma_update_shader(a, h, ShaderModel { source: s2, ..a.shader_at(h) });
    lemma_update_shader(m, h, ShaderModel { source: s2, ..m.shader_at(h) });
    assert(a.after_set_source(h, s2).shaders =~= m.after_set_source(h, s2).shaders);
    assert(a.after_set_source(h, s2) =~= m.after_set_source(h, s2));
}

/// Uploading bytes to the buffer bound at `ty` and then reading that
/// buffer's record back yields exactly the bytes uploaded, so its
/// stored size is exactly the byte count uploaded.
pub proof fn upload_round_trip(m: GlModel, ty: crate::gl::BufferType, data: Seq<u8>)
    requires
        m.wf(),
        m.bound_buffer(ty) != 0,
    ensures
        m.after_buffer_data(ty, data).buffer_at(m.bound_buffer(ty)).data == data,
        m.after_buffer_data(ty, data).buffer_at(m.bound_buffer(ty)).data.len() == data.len(),
{
    let b = m.bound_buffer(ty);
    assert(m.buffer_exists(b));
    lemma_update_buffer(m, b, BufferModel { handle: b, data });
}

/// Two consecutive successful creations, on any of the four resource
/// kinds, issue distinct nonzero handles.
pub proof fn create_handles_distinct(m: GlModel)
    requires
        m.wf(),
        m.can_alloc(),
    ensures
        m.fresh_handle() != 0,
        m.after_gen_vao().can_alloc() ==> m.after_gen_vao().fresh_handle() != 0
            && m.after_gen_vao().fresh_handle() != m.fresh_handle(),
        m.after_gen_buffer().can_alloc() ==> m.after_gen_buffer().fresh_handle() != 0
            && m.after_gen_buffer().fresh_handle() != m.fresh_handle(),
        m.after_create_program().can_alloc() ==> m.after_create_program().fresh_handle() != 0
            && m.after_create_program().fresh_handle() != m.fresh_handle(),
        forall|ty: ShaderType|
            #[trigger] m.after_create_shader(ty).can_alloc()
                ==> m.after_create_shader(ty).fresh_handle() != 0
                    && m.after_create_shader(ty).fresh_handle() != m.fresh_handle(),
{
}

} // verus!
