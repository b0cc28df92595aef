//! Making the display's name known to the session: the commands to run.

use vstd::prelude::*;

use crate::utils::text;

verus! {

/// A command to run.
pub struct Invocation {
    /// The program's name.
    pub program: String,
    /// Its arguments.
    pub args: Vec<String>,
    /// What `WAYLAND_DISPLAY` is set to for it, unless it is left alone.
    pub display: Option<String>,
}

/// A command to run, as texts.
#[verifier::ext_equal]
pub ghost struct InvocationView {
    pub program: Seq<char>,
    pub args: Seq<Seq<char>>,
    pub display: Option<Seq<char>>,
}

impl View for Invocation {
    type V = InvocationView;

    open spec fn view(&self) -> InvocationView {
        InvocationView {
            program: self.program@,
            args: text::string_views(self.args@),
            display: text::string_of(self.display),
        }
    }
}

/// The commands, as texts.
pub open spec fn invocation_views(list: Seq<Invocation>) -> Seq<InvocationView> {
    Seq::new(list.len(), |i: int| list[i]@)
}

/// The command by which systemd's user session learns of the display.
pub open spec fn systemd_invocation(socket_name: Seq<char>) -> InvocationView {
    InvocationView {
        program: "systemctl"@,
        args: seq!["--user"@, "import-environment"@, "WAYLAND_DISPLAY"@],
        display: Some(socket_name),
    }
}

/// The command by which programs that D-Bus starts learn of the display.
pub open spec fn dbus_invocation(socket_name: Seq<char>) -> InvocationView {
    InvocationView {
        program: "dbus-update-activation-environment"@,
        args: seq!["--systemd"@, "WAYLAND_DISPLAY="@ + socket_name],
        display: None,
    }
}

/// The commands to run, in order.
pub open spec fn environment_invocations(
    socket_name: Seq<char>,
    under_systemd: bool,
) -> Seq<InvocationView> {
    if under_systemd {
        seq![systemd_invocation(socket_name), dbus_invocation(socket_name)]
    } else {
        seq![dbus_invocation(socket_name)]
    }
}

/// Whether the session is systemd's: `SYSTEMD_EXEC_PID` is set, or systemd's directory is
/// there.
pub fn running_under_systemd(exec_pid_set: bool, directory_exists: bool) -> (r: bool)
    ensures
        r == (exec_pid_set || directory_exists),
{
    exec_pid_set || directory_exists
}

/// The command for systemd's user session; none where the session is not systemd's.
pub fn update_systemd_environment(socket_name: &str, under_systemd: bool) -> (r: Option<Invocation>)
    ensures
        match r {
            Some(command) => under_systemd && command@ == systemd_invocation(socket_name@),
            None => !under_systemd,
        },
{
    if !under_systemd {
        return None;
    }
    let mut args: Vec<String> = Vec::new();
    args.push(String::from_str("--user"));
    args.push(String::from_str("import-environment"));
    args.push(String::from_str("WAYLAND_DISPLAY"));
    let command = Invocation {
        program: String::from_str("systemctl"),
        args,
        display: Some(String::from_str(socket_name)),
    };
    assert(command@ =~= systemd_invocation(socket_name@));
    Some(command)
}

/// The command for programs that D-Bus starts.
pub fn update_dbus_environment(socket_name: &str) -> (r: Invocation)
    ensures
        r@ == dbus_invocation(socket_name@),
{
    let mut setting = String::from_str("WAYLAND_DISPLAY=");
    setting.append(socket_name);
    let mut args: Vec<String> = Vec::new();
    args.push(String::from_str("--systemd"));
    args.push(setting);
    let command = Invocation {
        program: String::from_str("dbus-update-activation-environment"),
        args,
        display: None,
    };
    assert(command@ =~= dbus_invocation(socket_name@));
    command
}

/// The commands that make the display known to systemd, where it runs, and to D-Bus.
pub fn update_environment(socket_name: &str, under_systemd: bool) -> (r: Vec<Invocation>)
    ensures
        invocation_views(r@) == environment_invocations(socket_name@, under_systemd),
{
    let mut commands: Vec<Invocation> = Vec::new();
    match update_systemd_environment(socket_name, under_systemd) {
        Some(command) => {
            commands.push(command);
        },
        None => {},
    }
    commands.push(update_dbus_environment(socket_name));
    assert(invocation_views(commands@) =~= environment_invocations(socket_name@, under_systemd));
    commands
}

/// Where the session is systemd's, its user session is told first to take over the display's name,
/// which the command is run with; programs that D-Bus starts are told in any case, by an argument
/// that sets the name.
pub proof fn law_environment(socket_name: Seq<char>, under_systemd: bool)
    ensures
        ({
            let list = environment_invocations(socket_name, under_systemd);
            let last = list.last();
            &&& list.len() == (if under_systemd {
                2int
            } else {
                1
            })
            &&& under_systemd ==> list[0].program == "systemctl"@ && list[0].args == seq![
                "--user"@,
                "import-environment"@,
                "WAYLAND_DISPLAY"@,
            ] && list[0].display == Some(socket_name)
            &&& last.program == "dbus-update-activation-environment"@
            &&& last.args.len() == 2
            &&& last.args[0] == "--systemd"@
            &&& last.args[1] == "WAYLAND_DISPLAY="@ + socket_name
            &&& last.display is None
        }),
{
}

} // verus!
