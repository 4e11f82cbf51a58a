use vstd::prelude::*;
use vstd::string::*;

use crate::commands::same_text;
use crate::text::{cut_all, split_all};

verus! {

/// One line of the session, read as a command.
#[derive(Debug)]
pub enum Command {
    Help,
    Quit,
    View,
    Export,
    /// `set <key> <field> <value>`
    SetCode(String, String, String),
    /// `add <key> <field> <value>`
    AddRule(String, String, String),
    /// `remove <key>`
    RemoveRule(String),
    /// A single word that names no command.
    UnknownSingle(String),
    /// Any other line.
    Unrecognized(String),
}

/// Reads a line, cut at each space, as a command.
pub fn parse_command(line: &str) -> (r: Command)
    ensures
        ({
            let t = split_all(line@, ' ');
            &&& (r is Help <==> t == seq!["help"@])
            &&& (r is Quit <==> t == seq!["quit"@])
            &&& (r is View <==> t == seq!["view"@])
            &&& (r is Export <==> t == seq!["export"@])
            &&& (r is SetCode <==> t.len() == 4 && t[0] == "set"@)
            &&& (r is SetCode ==> r->SetCode_0@ == t[1] && r->SetCode_1@ == t[2] && r->SetCode_2@ == t[3])
            &&& (r is AddRule <==> t.len() == 4 && t[0] == "add"@)
            &&& (r is AddRule ==> r->AddRule_0@ == t[1] && r->AddRule_1@ == t[2] && r->AddRule_2@ == t[3])
            &&& (r is RemoveRule <==> t.len() == 2 && t[0] == "remove"@)
            &&& (r is RemoveRule ==> r->RemoveRule_0@ == t[1])
            &&& (r is UnknownSingle <==> t.len() == 1 && t[0] != "help"@ && t[0] != "quit"@
                && t[0] != "view"@ && t[0] != "export"@)
            &&& (r is UnknownSingle ==> r->UnknownSingle_0@ == line@)
            &&& (r is Unrecognized ==> r->Unrecognized_0@ == line@)
        }),
{
    let t = cut_all(line, ' ');
    let ghost v = t@.map_values(|p: &str| p@);
    assert(t@.len() == v.len());
    proof {
        reveal_strlit("help");
        reveal_strlit("quit");
        reveal_strlit("view");
        reveal_strlit("export");
        reveal_strlit("set");
        reveal_strlit("add");
        assert("set"@[0] == 's' && "add"@[0] == 'a');
        assert("help"@[0] == 'h' && "quit"@[0] == 'q' && "view"@[0] == 'v' && "export"@[0] == 'e');
        assert("help"@ != "quit"@ && "help"@ != "view"@ && "help"@ != "export"@);
        assert("quit"@ != "view"@ && "quit"@ != "export"@ && "view"@ != "export"@);
    }
    if t.len() == 1 {
        assert(v[0] == t@[0]@);
        let w = t[0];
        if same_text(w, "help") {
            assert(v =~= seq!["help"@]);
            Command::Help
        } else if same_text(w, "quit") {
            assert(v =~= seq!["quit"@]);
            Command::Quit
        } else if same_text(w, "view") {
            assert(v =~= seq!["view"@]);
            Command::View
        } else if same_text(w, "export") {
            assert(v =~= seq!["export"@]);
            Command::Export
        } else {
            Command::UnknownSingle(line.to_string())
        }
    } else if t.len() == 4 && same_text(t[0], "set") {
        assert(v[0] == t@[0]@ && v[1] == t@[1]@ && v[2] == t@[2]@ && v[3] == t@[3]@);
        Command::SetCode(t[1].to_string(), t[2].to_string(), t[3].to_string())
    } else if t.len() == 4 && same_text(t[0], "add") {
        assert(v[0] == t@[0]@ && v[1] == t@[1]@ && v[2] == t@[2]@ && v[3] == t@[3]@);
        Command::AddRule(t[1].to_string(), t[2].to_string(), t[3].to_string())
    } else if t.len() == 2 && same_text(t[0], "remove") {
        assert(v[0] == t@[0]@ && v[1] == t@[1]@);
        Command::RemoveRule(t[1].to_string())
    } else {
        proof {
            if t.len() == 4 {
                assert(v[0] == t@[0]@);
            }
            if t.len() == 2 {
                assert(v[0] == t@[0]@);
            }
        }
        Command::Unrecognized(line.to_string())
    }
}

} // verus!
