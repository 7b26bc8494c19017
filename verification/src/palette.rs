//! The command palette's open/closed state and its fixed command list.

use vstd::prelude::*;

verus! {

pub struct CommandPalette {
    pub visible: bool,
    pub commands: Vec<String>,
}

impl CommandPalette {
    /// A hidden palette holding the three built-in commands.
    pub fn new() -> (r: Self)
        ensures
            !r.visible,
            r.commands@.len() == 3,
            r.commands@[0]@ == "Open"@,
            r.commands@[1]@ == "Save"@,
            r.commands@[2]@ == "About"@,
    {
        let mut commands: Vec<String> = Vec::new();
        commands.push("Open".to_owned());
        commands.push("Save".to_owned());
        commands.push("About".to_owned());
        CommandPalette { visible: false, commands }
    }

    /// Flips the palette's visibility and changes nothing else.
    pub fn toggle(&mut self)
        ensures
            final(self).visible == !old(self).visible,
            final(self).commands == old(self).commands,
    {
        self.visible = !self.visible;
    }
}

} // verus!
