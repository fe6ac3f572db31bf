//! The top-level commands a user can type, and their parsing.

use vstd::prelude::*;

verus! {

/// What the command prompt accepts.
#[derive(Debug, Clone, Copy, PartialEq, Eq, Structural)]
pub enum UserCommands {
    Add,
    Remove,
    Exit,
    Print,
    Search,
    Import,
}

/// Maps a command word to its command; anything unrecognized exits, as
/// the prompt warns.
pub fn check_for_command(input: &str) -> (r: UserCommands)
    ensures
        input@ == "add"@ ==> r == UserCommands::Add,
        input@ == "remove"@ ==> r == UserCommands::Remove,
        input@ == "exit"@ ==> r == UserCommands::Exit,
        input@ == "print"@ ==> r == UserCommands::Print,
        input@ == "import"@ ==> r == UserCommands::Import,
        input@ == "search"@ ==> r == UserCommands::Search,
        input@ != "add"@ && input@ != "remove"@ && input@ != "exit"@ && input@ != "print"@
            && input@ != "import"@ && input@ != "search"@ ==> r == UserCommands::Exit,
{
    proof {
        reveal_strlit("add");
        reveal_strlit("remove");
        reveal_strlit("exit");
        reveal_strlit("print");
        reveal_strlit("import");
        reveal_strlit("search");
        assert("add"@.len() == 3);
        assert("remove"@.len() == 6);
        assert("exit"@.len() == 4);
        assert("print"@.len() == 5);
        assert("import"@.len() == 6);
        assert("search"@.len() == 6);
        assert("remove"@ != "import"@) by {
            assert("remove"@[0] == 'r' && "import"@[0] == 'i');
        }
        assert("remove"@ != "search"@) by {
            assert("remove"@[0] == 'r' && "search"@[0] == 's');
        }
        assert("import"@ != "search"@) by {
            assert("import"@[0] == 'i' && "search"@[0] == 's');
        }
    }
    if crate::text::str_eq(input, "add") {
        UserCommands::Add
    } else if crate::text::str_eq(input, "remove") {
        UserCommands::Remove
    } else if crate::text::str_eq(input, "exit") {
        UserCommands::Exit
    } else if crate::text::str_eq(input, "print") {
        UserCommands::Print
    } else if crate::text::str_eq(input, "import") {
        UserCommands::Import
    } else if crate::text::str_eq(input, "search") {
        UserCommands::Search
    } else {
        UserCommands::Exit
    }
}

} // verus!
