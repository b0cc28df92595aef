//! The programs that key bindings start.

use vstd::prelude::*;

use crate::environment::{invocation_views, Invocation, InvocationView};
use crate::input::Request;
use crate::utils::text;

verus! {

/// A program with its arguments, on the display.
pub open spec fn on_display(program: Seq<char>, args: Seq<Seq<char>>, display: Seq<char>) -> InvocationView {
    InvocationView { program, args, display: Some(display) }
}

/// The programs to try, in order, until one starts: the terminal, or one of two menus.
pub open spec fn candidates(request: Request, display: Seq<char>) -> Seq<InvocationView> {
    match request {
        Request::LaunchTerminal => seq![on_display("foot"@, Seq::empty(), display)],
        Request::LaunchMenu => seq![
            on_display("wofi"@, seq!["--show"@, "drun"@], display),
            on_display("dmenu_run"@, Seq::empty(), display),
        ],
        _ => Seq::empty(),
    }
}

fn command(program: &str, args: Vec<String>, display: &str) -> (r: Invocation)
    ensures
        r@ == on_display(program@, text::string_views(args@), display@),
{
    Invocation {
        program: String::from_str(program),
        args,
        display: Some(String::from_str(display)),
    }
}

/// The programs to try for a request, in order, until one starts.
pub fn launch_candidates(request: Request, display: &str) -> (r: Vec<Invocation>)
    ensures
        invocation_views(r@) == candidates(request, display@),
{
    let mut list: Vec<Invocation> = Vec::new();
    match request {
        Request::LaunchTerminal => {
            let none: Vec<String> = Vec::new();
            assert(text::string_views(none@) =~= Seq::<Seq<char>>::empty());
            list.push(command("foot", none, display));
        },
        Request::LaunchMenu => {
            let mut args: Vec<String> = Vec::new();
            args.push(String::from_str("--show"));
            args.push(String::from_str("drun"));
            assert(text::string_views(args@) =~= seq!["--show"@, "drun"@]);
            list.push(command("wofi", args, display));
            let none: Vec<String> = Vec::new();
            assert(text::string_views(none@) =~= Seq::<Seq<char>>::empty());
            list.push(command("dmenu_run", none, display));
        },
        _ => {},
    }
    assert(invocation_views(list@) =~= candidates(request, display@));
    list
}

/// The terminal is `foot`, and the menu is `wofi`, asked to show programs, or else `dmenu_run`.
/// Each runs on the display. Other requests start nothing.
pub proof fn law_programs(request: Request, display: Seq<char>, i: int)
    ensures
        ({
            let list = candidates(request, display);
            &&& request is LaunchTerminal ==> list.len() == 1 && list[0].program == "foot"@
                && list[0].args.len() == 0
            &&& request is LaunchMenu ==> list.len() == 2 && list[0].program == "wofi"@
                && list[0].args.len() == 2 && list[0].args[0] == "--show"@ && list[0].args[1]
                == "drun"@ && list[1].program == "dmenu_run"@ && list[1].args.len() == 0
            &&& !(request is LaunchTerminal || request is LaunchMenu) ==> list.len() == 0
            &&& 0 <= i < list.len() ==> list[i].display == Some(display)
        }),
{
}

} // verus!
