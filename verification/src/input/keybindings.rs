//! Keys, and the actions that they trigger.

use vstd::prelude::*;

use crate::utils::search::{
    first_below, lemma_first_below, lemma_is_first_below, lemma_none_below,
};
use crate::utils::text::{decimal, decimal_text, law_decimal_injective, same_text};

verus! {

pub const KEY_SPACE: u32 = 0x0020;

pub const KEY_COMMA: u32 = 0x002c;

pub const KEY_0: u32 = 0x0030;

pub const KEY_1: u32 = 0x0031;

pub const KEY_D: u32 = 0x0064;

pub const KEY_E: u32 = 0x0065;

pub const KEY_F: u32 = 0x0066;

pub const KEY_H: u32 = 0x0068;

pub const KEY_I: u32 = 0x0069;

pub const KEY_J: u32 = 0x006a;

pub const KEY_K: u32 = 0x006b;

pub const KEY_L: u32 = 0x006c;

pub const KEY_M: u32 = 0x006d;

pub const KEY_Q: u32 = 0x0071;

pub const KEY_T: u32 = 0x0074;

pub const KEY_TAB: u32 = 0xff09;

pub const KEY_RETURN: u32 = 0xff0d;

pub const KEY_F1: u32 = 0xffbe;

/// Actions that keys can trigger.
#[derive(Debug, Clone, PartialEq, Eq)]
pub enum Action {
    FocusNext,
    FocusPrev,
    Zoom,
    CloseWindow,
    ToggleFloating,
    Fullscreen,
    IncreaseMasterWidth,
    DecreaseMasterWidth,
    IncreaseMasterCount,
    DecreaseMasterCount,
    ToggleLayoutMode,
    NextTab,
    PrevTab,
    LaunchTerminal,
    LaunchMenu,
    SwitchToWorkspace(String),
    MoveToWorkspace(String),
    Quit,
    VtSwitch(i32),
}

/// What an action is, with the names in it as texts.
pub enum ActionView {
    FocusNext,
    FocusPrev,
    Zoom,
    CloseWindow,
    ToggleFloating,
    Fullscreen,
    IncreaseMasterWidth,
    DecreaseMasterWidth,
    IncreaseMasterCount,
    DecreaseMasterCount,
    ToggleLayoutMode,
    NextTab,
    PrevTab,
    LaunchTerminal,
    LaunchMenu,
    SwitchToWorkspace(Seq<char>),
    MoveToWorkspace(Seq<char>),
    Quit,
    VtSwitch(i32),
}

impl View for Action {
    type V = ActionView;

    open spec fn view(&self) -> ActionView {
        match self {
            Action::FocusNext => ActionView::FocusNext,
            Action::FocusPrev => ActionView::FocusPrev,
            Action::Zoom => ActionView::Zoom,
            Action::CloseWindow => ActionView::CloseWindow,
            Action::ToggleFloating => ActionView::ToggleFloating,
            Action::Fullscreen => ActionView::Fullscreen,
            Action::IncreaseMasterWidth => ActionView::IncreaseMasterWidth,
            Action::DecreaseMasterWidth => ActionView::DecreaseMasterWidth,
            Action::IncreaseMasterCount => ActionView::IncreaseMasterCount,
            Action::DecreaseMasterCount => ActionView::DecreaseMasterCount,
            Action::ToggleLayoutMode => ActionView::ToggleLayoutMode,
            Action::NextTab => ActionView::NextTab,
            Action::PrevTab => ActionView::PrevTab,
            Action::LaunchTerminal => ActionView::LaunchTerminal,
            Action::LaunchMenu => ActionView::LaunchMenu,
            Action::SwitchToWorkspace(name) => ActionView::SwitchToWorkspace(name@),
            Action::MoveToWorkspace(name) => ActionView::MoveToWorkspace(name@),
            Action::Quit => ActionView::Quit,
            Action::VtSwitch(vt) => ActionView::VtSwitch(*vt),
        }
    }
}

impl Action {
    /// A copy of the action.
    pub fn duplicate(&self) -> (r: Action)
        ensures
            r@ == self@,
    {
        match self {
            Action::FocusNext => Action::FocusNext,
            Action::FocusPrev => Action::FocusPrev,
            Action::Zoom => Action::Zoom,
            Action::CloseWindow => Action::CloseWindow,
            Action::ToggleFloating => Action::ToggleFloating,
            Action::Fullscreen => Action::Fullscreen,
            Action::IncreaseMasterWidth => Action::IncreaseMasterWidth,
            Action::DecreaseMasterWidth => Action::DecreaseMasterWidth,
            Action::IncreaseMasterCount => Action::IncreaseMasterCount,
            Action::DecreaseMasterCount => Action::DecreaseMasterCount,
            Action::ToggleLayoutMode => Action::ToggleLayoutMode,
            Action::NextTab => Action::NextTab,
            Action::PrevTab => Action::PrevTab,
            Action::LaunchTerminal => Action::LaunchTerminal,
            Action::LaunchMenu => Action::LaunchMenu,
            Action::SwitchToWorkspace(name) => Action::SwitchToWorkspace(name.clone()),
            Action::MoveToWorkspace(name) => Action::MoveToWorkspace(name.clone()),
            Action::Quit => Action::Quit,
            Action::VtSwitch(vt) => Action::VtSwitch(*vt),
        }
    }
}

/// Which modifier keys are held.
#[derive(Debug, Clone, Copy, PartialEq, Eq, Structural)]
pub struct Modifiers {
    pub ctrl: bool,
    pub alt: bool,
    pub shift: bool,
    pub logo: bool,
}

/// A key with modifiers, and its action.
#[derive(Debug, Clone)]
pub struct Keybinding {
    pub modifiers: Modifiers,
    pub key: u32,
    pub action: Action,
}

/// What a keybinding holds.
pub struct BindingView {
    pub modifiers: Modifiers,
    pub key: u32,
    pub action: ActionView,
}

impl View for Keybinding {
    type V = BindingView;

    open spec fn view(&self) -> BindingView {
        BindingView { modifiers: self.modifiers, key: self.key, action: self.action@ }
    }
}

impl Keybinding {
    pub fn new(modifiers: Modifiers, key: u32, action: Action) -> (r: Keybinding)
        ensures
            r@ == (BindingView { modifiers, key, action: action@ }),
    {
        Keybinding { modifiers, key, action }
    }

    /// Whether this is the binding of the key with exactly these modifiers.
    pub fn matches(&self, modifiers: &Modifiers, key: u32) -> (r: bool)
        ensures
            r == (self@.modifiers == *modifiers && self@.key == key),
    {
        self.modifiers.ctrl == modifiers.ctrl && self.modifiers.alt == modifiers.alt
            && self.modifiers.shift == modifiers.shift && self.modifiers.logo == modifiers.logo
            && self.key == key
    }
}

/// What a list of keybindings holds.
pub open spec fn binding_views(bindings: Seq<Keybinding>) -> Seq<BindingView> {
    Seq::new(bindings.len(), |i: int| bindings[i]@)
}

/// A modifier together with shift.
pub open spec fn shifted(modkey: Modifiers) -> Modifiers {
    Modifiers { shift: true, ..modkey }
}

/// The modifiers that switch terminals.
pub open spec fn terminal_modifiers() -> Modifiers {
    Modifiers { ctrl: true, alt: true, shift: false, logo: false }
}

/// The bindings for windows, layout, tabs, programs and leaving.
pub open spec fn fixed_bindings(modkey: Modifiers) -> Seq<BindingView> {
    let shift = shifted(modkey);
    seq![
        BindingView { modifiers: modkey, key: KEY_J, action: ActionView::FocusNext },
        BindingView { modifiers: modkey, key: KEY_K, action: ActionView::FocusPrev },
        BindingView { modifiers: modkey, key: KEY_M, action: ActionView::Zoom },
        BindingView { modifiers: modkey, key: KEY_Q, action: ActionView::CloseWindow },
        BindingView { modifiers: shift, key: KEY_SPACE, action: ActionView::ToggleFloating },
        BindingView { modifiers: modkey, key: KEY_F, action: ActionView::Fullscreen },
        BindingView { modifiers: modkey, key: KEY_H, action: ActionView::DecreaseMasterWidth },
        BindingView { modifiers: modkey, key: KEY_L, action: ActionView::IncreaseMasterWidth },
        BindingView { modifiers: modkey, key: KEY_I, action: ActionView::IncreaseMasterCount },
        BindingView { modifiers: modkey, key: KEY_COMMA, action: ActionView::DecreaseMasterCount },
        BindingView { modifiers: modkey, key: KEY_T, action: ActionView::ToggleLayoutMode },
        BindingView { modifiers: modkey, key: KEY_TAB, action: ActionView::NextTab },
        BindingView { modifiers: shift, key: KEY_TAB, action: ActionView::PrevTab },
        BindingView { modifiers: modkey, key: KEY_RETURN, action: ActionView::LaunchTerminal },
        BindingView { modifiers: modkey, key: KEY_D, action: ActionView::LaunchMenu },
        BindingView { modifiers: shift, key: KEY_E, action: ActionView::Quit },
    ]
}

/// The digit key that stands for a workspace: one to nine, then zero for ten.
pub open spec fn digit_key(number: int) -> u32 {
    if number == 10 {
        KEY_0
    } else {
        (KEY_1 + number - 1) as u32
    }
}

/// The bindings that show the workspaces one to ten.
pub open spec fn switch_bindings(modkey: Modifiers) -> Seq<BindingView> {
    Seq::new(
        10,
        |i: int|
            BindingView {
                modifiers: modkey,
                key: digit_key(i + 1),
                action: ActionView::SwitchToWorkspace(decimal((i + 1) as nat)),
            },
    )
}

/// The bindings that move the focused window to the workspaces one to ten.
pub open spec fn move_bindings(modkey: Modifiers) -> Seq<BindingView> {
    Seq::new(
        10,
        |i: int|
            BindingView {
                modifiers: shifted(modkey),
                key: digit_key(i + 1),
                action: ActionView::MoveToWorkspace(decimal((i + 1) as nat)),
            },
    )
}

/// The bindings that switch to the terminals one to twelve.
pub open spec fn terminal_bindings() -> Seq<BindingView> {
    Seq::new(
        12,
        |i: int|
            BindingView {
                modifiers: terminal_modifiers(),
                key: (KEY_F1 + i) as u32,
                action: ActionView::VtSwitch((i + 1) as i32),
            },
    )
}

/// All bindings.
pub open spec fn default_bindings(modkey: Modifiers) -> Seq<BindingView> {
    fixed_bindings(modkey) + switch_bindings(modkey) + move_bindings(modkey) + terminal_bindings()
}

/// The lower-case form of a text.
pub uninterp spec fn lowercase(s: Seq<char>) -> Seq<char>;

/// `str::to_lowercase`: the lower-case form of the text, by the rules of Unicode. It
/// depends on nothing but the text; which form it is, is left unsaid.
#[verifier::external_body]
fn to_lowercase(s: &str) -> (r: String)
    ensures
        r@ == lowercase(s@),
{
    s.to_lowercase()
}

/// The modifier that a setting in lower case names: `alt`, and the logo key for anything
/// else.
pub open spec fn named_modkey(lowered: Seq<char>) -> Modifiers {
    if lowered == "alt"@ {
        Modifiers { ctrl: false, alt: true, shift: false, logo: false }
    } else {
        Modifiers { ctrl: false, alt: false, shift: false, logo: true }
    }
}

/// The modifier that a setting in lower case names.
pub fn modkey_from(lowered: &str) -> (r: Modifiers)
    ensures
        r == named_modkey(lowered@),
{
    if same_text(lowered, "alt") {
        Modifiers { ctrl: false, alt: true, shift: false, logo: false }
    } else {
        Modifiers { ctrl: false, alt: false, shift: false, logo: true }
    }
}

/// The modifier that a setting asks for; the logo key where there is none.
pub open spec fn modkey_setting(setting: Option<Seq<char>>) -> Modifiers {
    match setting {
        Some(text) => named_modkey(lowercase(text)),
        None => Modifiers { ctrl: false, alt: false, shift: false, logo: true },
    }
}

/// All keybindings.
pub struct Keybindings {
    bindings: Vec<Keybinding>,
}

impl View for Keybindings {
    type V = Seq<BindingView>;

    closed spec fn view(&self) -> Seq<BindingView> {
        binding_views(self.bindings@)
    }
}

/// Whether the binding at a place is that of the key with these modifiers.
pub open spec fn binds(bindings: Seq<BindingView>, modifiers: Modifiers, key: u32) -> spec_fn(int) -> bool {
    |i: int| bindings[i].modifiers == modifiers && bindings[i].key == key
}

/// The action of a key with modifiers: that of its first binding.
pub open spec fn bound_action(bindings: Seq<BindingView>, modifiers: Modifiers, key: u32) -> Option<ActionView> {
    match first_below(bindings.len(), binds(bindings, modifiers, key)) {
        Some(i) => Some(bindings[i].action),
        None => None,
    }
}

impl Keybindings {
    /// The default bindings. `modkey` is the text of the setting for the modifier, where
    /// there is one.
    pub fn new(modkey: Option<&str>) -> (r: Keybindings)
        ensures
            r@ == default_bindings(
                modkey_setting(
                    match modkey {
                        Some(text) => Some(text@),
                        None => None,
                    },
                ),
            ),
    {
        let modkey = Keybindings::get_modkey(modkey);
        Keybindings::with_modkey(modkey)
    }

    /// The default bindings for a modifier.
    pub fn with_modkey(modkey: Modifiers) -> (r: Keybindings)
        ensures
            r@ == default_bindings(modkey),
    {
        let shift = Modifiers { shift: true, ..modkey };
        let mut bindings: Vec<Keybinding> = Vec::new();
        bindings.push(Keybinding::new(modkey, KEY_J, Action::FocusNext));
        bindings.push(Keybinding::new(modkey, KEY_K, Action::FocusPrev));
        bindings.push(Keybinding::new(modkey, KEY_M, Action::Zoom));
        bindings.push(Keybinding::new(modkey, KEY_Q, Action::CloseWindow));
        bindings.push(Keybinding::new(shift, KEY_SPACE, Action::ToggleFloating));
        bindings.push(Keybinding::new(modkey, KEY_F, Action::Fullscreen));
        bindings.push(Keybinding::new(modkey, KEY_H, Action::DecreaseMasterWidth));
        bindings.push(Keybinding::new(modkey, KEY_L, Action::IncreaseMasterWidth));
        bindings.push(Keybinding::new(modkey, KEY_I, Action::IncreaseMasterCount));
        bindings.push(Keybinding::new(modkey, KEY_COMMA, Action::DecreaseMasterCount));
        bindings.push(Keybinding::new(modkey, KEY_T, Action::ToggleLayoutMode));
        bindings.push(Keybinding::new(modkey, KEY_TAB, Action::NextTab));
        bindings.push(Keybinding::new(shift, KEY_TAB, Action::PrevTab));
        bindings.push(Keybinding::new(modkey, KEY_RETURN, Action::LaunchTerminal));
        bindings.push(Keybinding::new(modkey, KEY_D, Action::LaunchMenu));
        bindings.push(Keybinding::new(shift, KEY_E, Action::Quit));
        let ghost fixed = fixed_bindings(modkey);
        assert(binding_views(bindings@) =~= fixed);
        let ghost with_switch = fixed + switch_bindings(modkey);
        let mut i: u64 = 1;
        while i <= 10
            invariant
                1 <= i <= 11,
                fixed == fixed_bindings(modkey),
                binding_views(bindings@) == fixed + switch_bindings(modkey).take(i - 1),
            decreases 11 - i,
        {
            let key: u32 = if i == 10 {
                KEY_0
            } else {
                KEY_1 + (i - 1) as u32
            };
            let ghost before = bindings@;
            bindings.push(Keybinding::new(modkey, key, Action::SwitchToWorkspace(decimal_text(i))));
            proof {
                let all = switch_bindings(modkey);
                assert(all.take(i as int) =~= all.take(i - 1).push(all[i - 1]));
                assert(binding_views(bindings@) =~= binding_views(before).push(all[i - 1]));
                assert(fixed + all.take(i as int) =~= (fixed + all.take(i - 1)).push(all[i - 1]));
            }
            i = i + 1;
        }
        assert(switch_bindings(modkey).take(10) =~= switch_bindings(modkey));
        let mut i: u64 = 1;
        assert(with_switch =~= with_switch + move_bindings(modkey).take(0));
        while i <= 10
            invariant
                1 <= i <= 11,
                shift == shifted(modkey),
                binding_views(bindings@) == with_switch + move_bindings(modkey).take(i - 1),
            decreases 11 - i,
        {
            let key: u32 = if i == 10 {
                KEY_0
            } else {
                KEY_1 + (i - 1) as u32
            };
            let ghost before = bindings@;
            bindings.push(Keybinding::new(shift, key, Action::MoveToWorkspace(decimal_text(i))));
            proof {
                let all = move_bindings(modkey);
                assert(all.take(i as int) =~= all.take(i - 1).push(all[i - 1]));
                assert(binding_views(bindings@) =~= binding_views(before).push(all[i - 1]));
                assert(with_switch + all.take(i as int) =~= (with_switch + all.take(i - 1)).push(
                    all[i - 1],
                ));
            }
            i = i + 1;
        }
        assert(move_bindings(modkey).take(10) =~= move_bindings(modkey));
        let ghost with_move = with_switch + move_bindings(modkey);
        let terminal = Modifiers { ctrl: true, alt: true, shift: false, logo: false };
        let mut vt: u32 = 1;
        assert(with_move =~= with_move + terminal_bindings().take(0));
        while vt <= 12
            invariant
                1 <= vt <= 13,
                terminal == terminal_modifiers(),
                binding_views(bindings@) == with_move + terminal_bindings().take(vt - 1),
            decreases 13 - vt,
        {
            let ghost before = bindings@;
            bindings.push(Keybinding::new(terminal, KEY_F1 + (vt - 1), Action::VtSwitch(vt as i32)));
            proof {
                let all = terminal_bindings();
                assert(all.take(vt as int) =~= all.take(vt - 1).push(all[vt - 1]));
                assert(binding_views(bindings@) =~= binding_views(before).push(all[vt - 1]));
                assert(with_move + all.take(vt as int) =~= (with_move + all.take(vt - 1)).push(
                    all[vt - 1],
                ));
            }
            vt = vt + 1;
        }
        assert(terminal_bindings().take(12) =~= terminal_bindings());
        Keybindings { bindings }
    }

    /// The modifier that a setting asks for; the logo key where there is none.
    pub fn get_modkey(setting: Option<&str>) -> (r: Modifiers)
        ensures
            r == modkey_setting(
                match setting {
                    Some(text) => Some(text@),
                    None => None,
                },
            ),
    {
        match setting {
            Some(text) => {
                let lowered = to_lowercase(text);
                modkey_from(lowered.as_str())
            },
            None => Modifiers { ctrl: false, alt: false, shift: false, logo: true },
        }
    }

    /// The action of a key that was pressed; a key that is released has none.
    pub fn check(&self, modifiers: &Modifiers, key: u32, pressed: bool) -> (r: Option<Action>)
        ensures
            match r {
                Some(action) => pressed && bound_action(self@, *modifiers, key) == Some(action@),
                None => !pressed || bound_action(self@, *modifiers, key) is None,
            },
    {
        if !pressed {
            return None;
        }
        let ghost p = binds(self@, *modifiers, key);
        let mut i: usize = 0;
        while i < self.bindings.len()
            invariant
                i <= self.bindings@.len(),
                p == binds(self@, *modifiers, key),
                forall|k: int| 0 <= k < i ==> !(#[trigger] p(k)),
                pressed,
            decreases self.bindings@.len() - i,
        {
            if self.bindings[i].matches(modifiers, key) {
                proof {
                    assert(p(i as int));
                    lemma_is_first_below(self@.len(), p, i as int);
                }
                return Some(self.bindings[i].action.duplicate());
            }
            assert(!p(i as int));
            i = i + 1;
        }
        proof {
            lemma_none_below(self@.len(), p);
        }
        None
    }
}

/// Whether the modifier is one that a setting can ask for.
pub open spec fn is_modkey(m: Modifiers) -> bool {
    m == (Modifiers { ctrl: false, alt: true, shift: false, logo: false }) || m == (Modifiers {
        ctrl: false,
        alt: false,
        shift: false,
        logo: true,
    })
}

/// Every setting asks for one of the two modifiers.
pub proof fn law_modkey_known(setting: Option<Seq<char>>)
    ensures
        is_modkey(modkey_setting(setting)),
{
}

/// No two bindings share a key and its modifiers, so each binding triggers its own action.
pub proof fn law_bindings_distinct(modkey: Modifiers, i: int)
    requires
        is_modkey(modkey),
        0 <= i < default_bindings(modkey).len(),
    ensures
        bound_action(
            default_bindings(modkey),
            default_bindings(modkey)[i].modifiers,
            default_bindings(modkey)[i].key,
        ) == Some(default_bindings(modkey)[i].action),
{
    let all = default_bindings(modkey);
    let p = binds(all, all[i].modifiers, all[i].key);
    assert forall|j: int| 0 <= j < i implies !(#[trigger] p(j)) by {
        lemma_binding_at(modkey, i);
        lemma_binding_at(modkey, j);
    }
    lemma_is_first_below(all.len(), p, i);
}

/// Where each binding stands.
proof fn lemma_binding_at(modkey: Modifiers, i: int)
    requires
        0 <= i < default_bindings(modkey).len(),
    ensures
        default_bindings(modkey).len() == 48,
        i < 16 ==> default_bindings(modkey)[i] == fixed_bindings(modkey)[i],
        16 <= i < 26 ==> default_bindings(modkey)[i].modifiers == modkey && default_bindings(
            modkey,
        )[i].key == digit_key(i - 15),
        26 <= i < 36 ==> default_bindings(modkey)[i].modifiers == shifted(modkey)
            && default_bindings(modkey)[i].key == digit_key(i - 25),
        36 <= i ==> default_bindings(modkey)[i].modifiers == terminal_modifiers()
            && default_bindings(modkey)[i].key == KEY_F1 + i - 36,
{
}

/// Switching to a workspace by its digit asks for the workspace of that number.
pub proof fn law_digit_switches(modkey: Modifiers, number: int)
    requires
        is_modkey(modkey),
        1 <= number <= 10,
    ensures
        bound_action(default_bindings(modkey), modkey, digit_key(number)) == Some(
            ActionView::SwitchToWorkspace(decimal(number as nat)),
        ),
        bound_action(default_bindings(modkey), shifted(modkey), digit_key(number)) == Some(
            ActionView::MoveToWorkspace(decimal(number as nat)),
        ),
{
    law_bindings_distinct(modkey, 15 + number);
    law_bindings_distinct(modkey, 25 + number);
    lemma_binding_at(modkey, 15 + number);
    lemma_binding_at(modkey, 25 + number);
    assert(default_bindings(modkey)[15 + number] == switch_bindings(modkey)[number - 1]);
    assert(default_bindings(modkey)[25 + number] == move_bindings(modkey)[number - 1]);
}

/// A binding is that of its key: where it stands, no other one stands before it.
proof fn lemma_bound(modkey: Modifiers, i: int)
    requires
        is_modkey(modkey),
        0 <= i < 16,
    ensures
        ({
            let b = fixed_bindings(modkey)[i];
            bound_action(default_bindings(modkey), b.modifiers, b.key) == Some(b.action)
        }),
{
    law_bindings_distinct(modkey, i);
    lemma_binding_at(modkey, i);
}

/// What each key does together with the modifier of the setting: q closes the window, j and k
/// focus the next and the previous one, m zooms, f makes fullscreen, h and l change the width of
/// the master column and comma and i the number of its windows, t changes the layout, tab goes
/// to the next tab, return starts a terminal and d the menu. With shift, space makes the window
/// float, tab goes to the previous tab and e leaves.
pub proof fn law_keys(modkey: Modifiers)
    requires
        is_modkey(modkey),
    ensures
        ({
            let b = default_bindings(modkey);
            let shift = Modifiers { shift: true, ..modkey };
            &&& bound_action(b, modkey, 'q' as u32) == Some(ActionView::CloseWindow)
            &&& bound_action(b, modkey, 'j' as u32) == Some(ActionView::FocusNext)
            &&& bound_action(b, modkey, 'k' as u32) == Some(ActionView::FocusPrev)
            &&& bound_action(b, modkey, 'm' as u32) == Some(ActionView::Zoom)
            &&& bound_action(b, modkey, 'f' as u32) == Some(ActionView::Fullscreen)
            &&& bound_action(b, modkey, 'h' as u32) == Some(ActionView::DecreaseMasterWidth)
            &&& bound_action(b, modkey, 'l' as u32) == Some(ActionView::IncreaseMasterWidth)
            &&& bound_action(b, modkey, 'i' as u32) == Some(ActionView::IncreaseMasterCount)
            &&& bound_action(b, modkey, ',' as u32) == Some(ActionView::DecreaseMasterCount)
            &&& bound_action(b, modkey, 't' as u32) == Some(ActionView::ToggleLayoutMode)
            &&& bound_action(b, modkey, 0xff09) == Some(ActionView::NextTab)
            &&& bound_action(b, modkey, 0xff0d) == Some(ActionView::LaunchTerminal)
            &&& bound_action(b, modkey, 'd' as u32) == Some(ActionView::LaunchMenu)
            &&& bound_action(b, shift, ' ' as u32) == Some(ActionView::ToggleFloating)
            &&& bound_action(b, shift, 0xff09) == Some(ActionView::PrevTab)
            &&& bound_action(b, shift, 'e' as u32) == Some(ActionView::Quit)
        }),
{
    lemma_bound(modkey, 0);
    lemma_bound(modkey, 1);
    lemma_bound(modkey, 2);
    lemma_bound(modkey, 3);
    lemma_bound(modkey, 4);
    lemma_bound(modkey, 5);
    lemma_bound(modkey, 6);
    lemma_bound(modkey, 7);
    lemma_bound(modkey, 8);
    lemma_bound(modkey, 9);
    lemma_bound(modkey, 10);
    lemma_bound(modkey, 11);
    lemma_bound(modkey, 12);
    lemma_bound(modkey, 13);
    lemma_bound(modkey, 14);
    lemma_bound(modkey, 15);
}

/// The digits one to nine show the workspaces of these names and zero that of ten; with shift
/// they move the focused window there. With control and alt, the function keys switch to the
/// terminals of their numbers.
pub proof fn law_number_keys(modkey: Modifiers, n: int)
    requires
        is_modkey(modkey),
    ensures
        ({
            let b = default_bindings(modkey);
            let shift = Modifiers { shift: true, ..modkey };
            let terminal = Modifiers { ctrl: true, alt: true, shift: false, logo: false };
            let digit = ('0' as u32 + n % 10) as u32;
            &&& 1 <= n <= 10 ==> bound_action(b, modkey, digit) == Some(
                ActionView::SwitchToWorkspace(decimal(n as nat)),
            ) && bound_action(b, shift, digit) == Some(
                ActionView::MoveToWorkspace(decimal(n as nat)),
            )
            &&& 1 <= n <= 12 ==> bound_action(b, terminal, (0xffbe + n - 1) as u32) == Some(
                ActionView::VtSwitch(n as i32),
            )
        }),
{
    if 1 <= n <= 10 {
        law_digit_switches(modkey, n);
    }
    if 1 <= n <= 12 {
        law_bindings_distinct(modkey, 35 + n);
        lemma_binding_at(modkey, 35 + n);
        assert(default_bindings(modkey)[35 + n] == terminal_bindings()[n - 1]);
    }
}

/// Every action has one key: two keys that do the same are the same key with the same modifiers.
pub proof fn law_one_key_each(modkey: Modifiers, m1: Modifiers, k1: u32, m2: Modifiers, k2: u32)
    requires
        is_modkey(modkey),
        bound_action(default_bindings(modkey), m1, k1) is Some,
        bound_action(default_bindings(modkey), m1, k1) == bound_action(
            default_bindings(modkey),
            m2,
            k2,
        ),
    ensures
        m1 == m2,
        k1 == k2,
{
    let b = default_bindings(modkey);
    lemma_first_below(b.len(), binds(b, m1, k1));
    lemma_first_below(b.len(), binds(b, m2, k2));
    let i = first_below(b.len(), binds(b, m1, k1)).unwrap();
    let j = first_below(b.len(), binds(b, m2, k2)).unwrap();
    lemma_binding_at(modkey, i);
    lemma_binding_at(modkey, j);
    lemma_number_binding(modkey, i);
    lemma_number_binding(modkey, j);
    if 16 <= i < 26 && 16 <= j < 26 {
        law_decimal_injective((i - 15) as nat, (j - 15) as nat);
    }
    if 26 <= i < 36 && 26 <= j < 36 {
        law_decimal_injective((i - 25) as nat, (j - 25) as nat);
    }
    assert(i == j);
}

/// What the bindings of digits and function keys do.
proof fn lemma_number_binding(modkey: Modifiers, i: int)
    requires
        0 <= i < default_bindings(modkey).len(),
    ensures
        16 <= i < 26 ==> default_bindings(modkey)[i].action == ActionView::SwitchToWorkspace(
            decimal((i - 15) as nat),
        ),
        26 <= i < 36 ==> default_bindings(modkey)[i].action == ActionView::MoveToWorkspace(
            decimal((i - 25) as nat),
        ),
        36 <= i < 48 ==> default_bindings(modkey)[i].action == ActionView::VtSwitch(
            (i - 35) as i32,
        ),
{
}

/// No key does anything without the modifier of the setting, except the function keys with
/// control and alt. With the modifier, a key that does something is one of these: a digit, tab,
/// return, comma or one of ten letters; with shift a digit, tab, space or e.
pub proof fn law_other_keys(modkey: Modifiers, m: Modifiers, key: u32)
    requires
        is_modkey(modkey),
        bound_action(default_bindings(modkey), m, key) is Some,
    ensures
        ({
            let shift = Modifiers { shift: true, ..modkey };
            let terminal = Modifiers { ctrl: true, alt: true, shift: false, logo: false };
            let digit = '0' as u32 <= key <= '9' as u32;
            ||| m == modkey && (digit || key == 0xff09 || key == 0xff0d || key == ',' as u32 || key
                == 'q' as u32 || key == 'j' as u32 || key == 'k' as u32 || key == 'm' as u32 || key
                == 'f' as u32 || key == 'h' as u32 || key == 'l' as u32 || key == 'i' as u32 || key
                == 't' as u32 || key == 'd' as u32)
            ||| m == shift && (digit || key == 0xff09 || key == ' ' as u32 || key == 'e' as u32)
            ||| m == terminal && 0xffbe <= key < 0xffbe + 12
        }),
{
    let b = default_bindings(modkey);
    lemma_first_below(b.len(), binds(b, m, key));
    lemma_binding_at(modkey, first_below(b.len(), binds(b, m, key)).unwrap());
}

/// A setting whose lower-case form is `alt` asks for the alt key; any other, and none, for the
/// logo key. Nothing else is held with it.
pub proof fn law_modkey(setting: Option<Seq<char>>)
    ensures
        ({
            let m = modkey_setting(setting);
            &&& !m.ctrl && !m.shift
            &&& m.alt <==> setting is Some && lowercase(setting.unwrap()) == "alt"@
            &&& m.logo <==> !m.alt
        }),
{
}

} // verus!
