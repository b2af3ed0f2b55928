//! What the viewer does with a key press, and which mesh it shows.

use vstd::prelude::*;

verus! {

/// The keys the viewer tells apart.
#[derive(Clone, Copy, Debug, PartialEq, Eq, Structural)]
pub enum Key {
    Escape,
    Digit1,
    Digit2,
    Digit3,
    Digit4,
    /// The `=` / `+` key.
    Equal,
    /// The `-` key.
    Minus,
    /// Any other key.
    Other,
}

/// What a key press asks of the viewer.
#[derive(Clone, Copy, Debug, PartialEq, Eq, Structural)]
pub enum Command {
    /// Close the viewer.
    Exit,
    /// Show the mesh with this number.
    SelectShape(usize),
    /// Scale the model up by one step.
    Grow,
    /// Scale the model down by one step.
    Shrink,
    /// Nothing to do.
    Ignore,
}

/// Escape closes the viewer; the digit keys 1 to 4 pick meshes 0 to 3;
/// `=` scales up and `-` scales down; other keys do nothing.
pub open spec fn key_command(key: Key) -> Command {
    match key {
        Key::Escape => Command::Exit,
        Key::Digit1 => Command::SelectShape(0),
        Key::Digit2 => Command::SelectShape(1),
        Key::Digit3 => Command::SelectShape(2),
        Key::Digit4 => Command::SelectShape(3),
        Key::Equal => Command::Grow,
        Key::Minus => Command::Shrink,
        Key::Other => Command::Ignore,
    }
}

/// The command that a press of `key` gives.
pub fn command_for_key(key: Key) -> (c: Command)
    ensures
        c == key_command(key),
{
    match key {
        Key::Escape => Command::Exit,
        Key::Digit1 => Command::SelectShape(0),
        Key::Digit2 => Command::SelectShape(1),
        Key::Digit3 => Command::SelectShape(2),
        Key::Digit4 => Command::SelectShape(3),
        Key::Equal => Command::Grow,
        Key::Minus => Command::Shrink,
        Key::Other => Command::Ignore,
    }
}

/// The mesh that asking for mesh `idx` shows when there are `count`
/// meshes: `idx` itself, or the last mesh when `idx` is past the end.
pub open spec fn clamped_choice(idx: int, count: int) -> int {
    if idx < count - 1 {
        idx
    } else {
        count - 1
    }
}

/// Which of a fixed number of meshes the viewer shows. There is always at
/// least one mesh, and the one on show exists.
pub struct Viewer {
    current_mesh: usize,
    mesh_count: usize,
}

impl Viewer {
    #[verifier::type_invariant]
    spec fn shows_existing_mesh(self) -> bool {
        0 < self.mesh_count && self.current_mesh < self.mesh_count
    }

    /// Number of the mesh on show.
    pub closed spec fn current(&self) -> int {
        self.current_mesh as int
    }

    /// Number of meshes there are to show.
    pub closed spec fn count(&self) -> int {
        self.mesh_count as int
    }

    /// There is at least one mesh, and the one on show exists.
    pub open spec fn wf(&self) -> bool {
        0 < self.count() && 0 <= self.current() < self.count()
    }

    /// A viewer of `mesh_count` meshes, showing the first.
    pub fn new(mesh_count: usize) -> (v: Viewer)
        requires
            mesh_count > 0,
        ensures
            v.wf(),
            v.count() == mesh_count,
            v.current() == 0,
    {
        Viewer { current_mesh: 0, mesh_count }
    }

    /// Number of the mesh on show.
    pub fn current_mesh(&self) -> (r: usize)
        ensures
            self.wf(),
            r == self.current(),
            r < self.count(),
    {
        proof {
            use_type_invariant(self);
        }
        self.current_mesh
    }

    /// Number of meshes there are to show.
    pub fn mesh_count(&self) -> (r: usize)
        ensures
            self.wf(),
            r == self.count(),
    {
        proof {
            use_type_invariant(self);
        }
        self.mesh_count
    }

    /// Shows mesh `idx`, or the last mesh when `idx` is past the end.
    pub fn set_shape(&mut self, idx: usize)
        ensures
            old(self).wf(),
            final(self).wf(),
            final(self).count() == old(self).count(),
            final(self).current() == clamped_choice(idx as int, old(self).count()),
            idx < old(self).count() ==> final(self).current() == idx,
            idx >= old(self).count() ==> final(self).current() == old(self).count() - 1,
    {
        proof {
            use_type_invariant(&*self);
        }
        let last = self.mesh_count - 1;
        self.current_mesh = if idx < last { idx } else { last };
    }

    /// Handles a key press: picks a mesh for a digit key and hands back
    /// the command that the key gives; the rest is left to the caller.
    pub fn handle_key(&mut self, key: Key) -> (c: Command)
        ensures
            c == key_command(key),
            old(self).wf(),
            final(self).wf(),
            final(self).count() == old(self).count(),
            match c {
                Command::SelectShape(i) => {
                    &&& final(self).current() == clamped_choice(i as int, old(self).count())
                    &&& i < old(self).count() ==> final(self).current() == i
                    &&& i >= old(self).count() ==> final(self).current() == old(self).count() - 1
                },
                _ => final(self).current() == old(self).current(),
            },
    {
        let c = command_for_key(key);
        if let Command::SelectShape(i) = c {
            self.set_shape(i);
        } else {
            proof {
                use_type_invariant(&*self);
            }
        }
        c
    }
}

/// Choosing a mesh twice in a row shows the same mesh as choosing it once,
/// and whatever is asked for, the mesh on show exists.
pub proof fn lemma_choice_settles(idx: int, count: int)
    requires
        count > 0,
        idx >= 0,
    ensures
        0 <= clamped_choice(idx, count) < count,
        clamped_choice(clamped_choice(idx, count), count) == clamped_choice(idx, count),
        idx < count ==> clamped_choice(idx, count) == idx,
{
}

} // verus!
