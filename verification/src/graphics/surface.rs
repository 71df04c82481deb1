//! EGFX surface bookkeeping: the surfaces the server creates and where each
//! is mapped on the output, so decoded surface updates land at the right
//! desktop coordinates. An update at surface rectangle `(l, t, r, b)` lands
//! at `(outputX + l, outputY + t)`.
use vstd::prelude::*;
use std::collections::HashMap;

verus! {

/// A server-created EGFX surface.
#[derive(Debug, Clone, Copy, PartialEq, Eq)]
pub struct Surface {
    pub width: u16,
    pub height: u16,
    pub pixel_format: u8,
    /// The desktop origin the surface is mapped to, once mapped.
    pub output: Option<(u32, u32)>,
}

/// The graphics commands that change surface state; every other command
/// is `Other`.
#[derive(Debug, Clone, Copy, PartialEq, Eq, Structural)]
pub enum GfxCommand {
    CreateSurface { surface_id: u16, width: u16, height: u16, pixel_format: u8 },
    DeleteSurface { surface_id: u16 },
    MapSurfaceToOutput { surface_id: u16, x: u32, y: u32 },
    Other,
}

/// The surfaces after a command: create adds (or replaces) an unmapped
/// surface, delete removes, map sets the origin of a known surface.
pub open spec fn spec_apply(m: Map<u16, Surface>, command: GfxCommand) -> Map<u16, Surface> {
    match command {
        GfxCommand::CreateSurface { surface_id, width, height, pixel_format } => m.insert(
            surface_id,
            Surface { width, height, pixel_format, output: None },
        ),
        GfxCommand::DeleteSurface { surface_id } => m.remove(surface_id),
        GfxCommand::MapSurfaceToOutput { surface_id, x, y } => if m.contains_key(surface_id) {
            m.insert(surface_id, Surface { output: Some((x, y)), ..m[surface_id] })
        } else {
            m
        },
        GfxCommand::Other => m,
    }
}

/// The desktop origin of a surface: its mapping, `(0, 0)` while unmapped,
/// `None` for an unknown surface.
pub open spec fn spec_output_origin(m: Map<u16, Surface>, surface_id: u16) -> Option<(u32, u32)> {
    if m.contains_key(surface_id) {
        match m[surface_id].output {
            Some(o) => Some(o),
            None => Some((0, 0)),
        }
    } else {
        None
    }
}

/// The live surfaces of one connection, keyed by surface id.
pub struct SurfaceTable {
    surfaces: HashMap<u16, Surface>,
}

impl View for SurfaceTable {
    type V = Map<u16, Surface>;

    closed spec fn view(&self) -> Map<u16, Surface> {
        self.surfaces@
    }
}

impl SurfaceTable {
    pub fn new() -> (r: Self)
        ensures
            r@ == Map::<u16, Surface>::empty(),
    {
        SurfaceTable { surfaces: HashMap::new() }
    }

    /// Update the table from a graphics command (see [`spec_apply`]).
    pub fn apply(&mut self, command: &GfxCommand)
        ensures
            final(self)@ == spec_apply(old(self)@, *command),
    {
        broadcast use vstd::std_specs::hash::group_hash_axioms;
        match *command {
            GfxCommand::CreateSurface { surface_id, width, height, pixel_format } => {
                self.surfaces.insert(surface_id, Surface { width, height, pixel_format, output: None });
            },
            GfxCommand::DeleteSurface { surface_id } => {
                self.surfaces.remove(&surface_id);
            },
            GfxCommand::MapSurfaceToOutput { surface_id, x, y } => {
                let found = match self.surfaces.get(&surface_id) {
                    Some(s) => Some(*s),
                    None => None,
                };
                if let Some(s) = found {
                    self.surfaces.insert(surface_id, Surface { output: Some((x, y)), ..s });
                }
            },
            GfxCommand::Other => {},
        }
    }

    /// The surface, if it exists.
    pub fn get(&self, surface_id: u16) -> (r: Option<&Surface>)
        ensures
            match r {
                Some(s) => self@.contains_key(surface_id) && *s == self@[surface_id],
                None => !self@.contains_key(surface_id),
            },
    {
        broadcast use vstd::std_specs::hash::group_hash_axioms;
        self.surfaces.get(&surface_id)
    }

    /// The desktop origin a surface is mapped to (see
    /// [`spec_output_origin`]).
    pub fn output_origin(&self, surface_id: u16) -> (r: Option<(u32, u32)>)
        ensures
            r == spec_output_origin(self@, surface_id),
    {
        match self.get(surface_id) {
            Some(s) => match s.output {
                Some(o) => Some(o),
                None => Some((0, 0)),
            },
            None => None,
        }
    }
}

/// A created surface reports origin `(0, 0)` until it is mapped, then the
/// mapped point.
pub proof fn lemma_create_then_map(m: Map<u16, Surface>, id: u16, w: u16, h: u16, f: u8, x: u32, y: u32)
    ensures
        spec_output_origin(
            spec_apply(m, GfxCommand::CreateSurface { surface_id: id, width: w, height: h, pixel_format: f }),
            id,
        ) == Some((0u32, 0u32)),
        spec_output_origin(
            spec_apply(
                spec_apply(m, GfxCommand::CreateSurface { surface_id: id, width: w, height: h, pixel_format: f }),
                GfxCommand::MapSurfaceToOutput { surface_id: id, x, y },
            ),
            id,
        ) == Some((x, y)),
{
}

/// A deleted surface is unknown, and mapping an unknown surface changes
/// nothing.
pub proof fn lemma_delete_and_unknown_map(m: Map<u16, Surface>, id: u16, x: u32, y: u32)
    ensures
        spec_output_origin(spec_apply(m, GfxCommand::DeleteSurface { surface_id: id }), id) is None,
        !m.contains_key(id) ==> spec_apply(m, GfxCommand::MapSurfaceToOutput { surface_id: id, x, y }) == m,
{
}

/// Commands are local: creating, deleting or mapping surface `a` leaves
/// every other surface exactly as it was (present or absent, with the same
/// size, format and origin), and deleting `a` leaves no surface `a`.
pub proof fn lemma_commands_touch_only_their_surface(
    m: Map<u16, Surface>,
    a: u16,
    b: u16,
    w: u16,
    h: u16,
    f: u8,
    x: u32,
    y: u32,
)
    requires
        a != b,
    ensures
        !spec_apply(m, GfxCommand::DeleteSurface { surface_id: a }).contains_key(a),
        spec_apply(m, GfxCommand::DeleteSurface { surface_id: a }).contains_key(b) == m.contains_key(b),
        m.contains_key(b) ==> spec_apply(m, GfxCommand::DeleteSurface { surface_id: a })[b] == m[b],
        spec_apply(m, GfxCommand::CreateSurface { surface_id: a, width: w, height: h, pixel_format: f }).contains_key(b)
            == m.contains_key(b),
        m.contains_key(b) ==> spec_apply(
            m,
            GfxCommand::CreateSurface { surface_id: a, width: w, height: h, pixel_format: f },
        )[b] == m[b],
        spec_apply(m, GfxCommand::MapSurfaceToOutput { surface_id: a, x, y }).contains_key(b) == m.contains_key(b),
        m.contains_key(b) ==> spec_apply(m, GfxCommand::MapSurfaceToOutput { surface_id: a, x, y })[b] == m[b],
{
}

/// An empty table.
impl Default for SurfaceTable {
    fn default() -> (r: Self)
        ensures
            r@ == Map::<u16, Surface>::empty(),
    {
        Self::new()
    }
}

} // verus!
