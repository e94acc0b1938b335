//! The menu state machine (title, mode, world, difficulty, address, play),
//! the mapping of held keys to motions, and the weather rolls of the
//! single-player game.
use vstd::prelude::*;
use crate::world::{Theme, Weather, WORLD_COUNT};
use crate::sim::{lcg_step, lcg_next, pick_weather, theme_weather, weather_roll};

verus! {

/// A key press, as the terminal reports it.
#[derive(Clone, Copy, PartialEq, Eq, Structural, Debug)]
pub enum Key {
    Char(char),
    Enter,
    Esc,
    Backspace,
    Up,
    Down,
    Left,
    Right,
    Other,
}

/// The screen the game shows.
#[derive(Clone, Copy, PartialEq, Eq, Structural, Debug)]
pub enum Screen {
    Title,
    /// Single player, host a game, or join one.
    Mode,
    /// The list of worlds.
    Select,
    /// The difficulty level.
    Difficulty,
    /// The host's address, typed by a joining player.
    Address,
    Play,
}

/// How the game is played.
#[derive(Clone, Copy, PartialEq, Eq, Structural, Debug)]
pub enum Mode {
    Single,
    Host,
    Join,
}

/// What the caller has to do after a key press.
#[derive(Clone, Copy, PartialEq, Eq, Structural, Debug)]
pub enum MenuAction {
    /// Nothing beyond the change of screen or selection.
    Nothing,
    /// Leave the program.
    Quit,
    /// Build the world of the given table entry and play it alone, at the
    /// given difficulty level.
    StartWorld(usize, i32),
    /// Host the world of the given table entry at the given difficulty level,
    /// and play in it.
    HostWorld(usize, i32),
    /// Join the host at the address the menu holds.
    Join,
    /// Drop the world that was being played.
    LeaveWorld,
}

/// Least difficulty level.
pub const MIN_LEVEL: i32 = 1;

/// Greatest difficulty level.
pub const MAX_LEVEL: i32 = 10;

/// The level the difficulty screen starts at.
pub const START_LEVEL: i32 = 5;

/// The menu's state as contracts see it.
pub struct MenuView {
    pub screen: Screen,
    pub mode: Mode,
    pub sel: usize,
    pub level: i32,
    pub address: Seq<u8>,
}

/// The menu: the current screen, the highlighted mode, world and difficulty
/// level, and the address typed so far.
pub struct Menu {
    screen: Screen,
    mode: Mode,
    sel: usize,
    level: i32,
    address: Vec<u8>,
}

/// The selection after pressing Up: one row up, computed with wrap-around
/// and taken modulo the number of worlds.
pub open spec fn sel_up(sel: usize) -> usize {
    (vstd::wrapping::usize_specs::wrapping_sub(sel, 1) % (WORLD_COUNT as usize)) as usize
}

/// The selection after pressing Down: one row down, wrapping to the top.
pub open spec fn sel_down(sel: usize) -> usize {
    ((sel + 1) % (WORLD_COUNT as int)) as usize
}

/// The mode one row up, wrapping to the bottom.
pub open spec fn mode_up(m: Mode) -> Mode {
    match m {
        Mode::Single => Mode::Join,
        Mode::Host => Mode::Single,
        Mode::Join => Mode::Host,
    }
}

/// The mode one row down, wrapping to the top.
pub open spec fn mode_down(m: Mode) -> Mode {
    match m {
        Mode::Single => Mode::Host,
        Mode::Host => Mode::Join,
        Mode::Join => Mode::Single,
    }
}

/// One level harder, up to the greatest.
pub open spec fn level_up(l: i32) -> i32 {
    if l < MAX_LEVEL {
        (l + 1) as i32
    } else {
        MAX_LEVEL
    }
}

/// One level easier, down to the least.
pub open spec fn level_down(l: i32) -> i32 {
    if l > MIN_LEVEL {
        (l - 1) as i32
    } else {
        MIN_LEVEL
    }
}

pub open spec fn is_back_key(k: Key) -> bool {
    k == Key::Esc || k == Key::Char('q')
}

/// A character that can be typed into an address: printable ASCII, no space.
pub open spec fn address_char(c: char) -> bool {
    0x21 <= (c as u32) <= 0x7e
}

pub open spec fn address_byte(b: u8) -> bool {
    0x21 <= b <= 0x7e
}

/// The menu moved to screen `s`, all else kept.
pub open spec fn on_screen(m: MenuView, s: Screen) -> MenuView {
    MenuView { screen: s, ..m }
}

/// The menu after the key `k`, and what the caller has to do.
pub open spec fn menu_next(m: MenuView, k: Key) -> (MenuView, MenuAction) {
    match m.screen {
        Screen::Title => {
            if is_back_key(k) {
                (m, MenuAction::Quit)
            } else if k == Key::Enter || k == Key::Char(' ') {
                (on_screen(m, Screen::Mode), MenuAction::Nothing)
            } else {
                (m, MenuAction::Nothing)
            }
        },
        Screen::Mode => {
            if is_back_key(k) {
                (on_screen(m, Screen::Title), MenuAction::Nothing)
            } else if k == Key::Up {
                (MenuView { mode: mode_up(m.mode), ..m }, MenuAction::Nothing)
            } else if k == Key::Down {
                (MenuView { mode: mode_down(m.mode), ..m }, MenuAction::Nothing)
            } else if k == Key::Enter {
                if m.mode == Mode::Join {
                    (on_screen(m, Screen::Address), MenuAction::Nothing)
                } else {
                    (on_screen(m, Screen::Select), MenuAction::Nothing)
                }
            } else {
                (m, MenuAction::Nothing)
            }
        },
        Screen::Select => {
            if is_back_key(k) {
                (on_screen(m, Screen::Mode), MenuAction::Nothing)
            } else if k == Key::Up {
                (MenuView { sel: sel_up(m.sel), ..m }, MenuAction::Nothing)
            } else if k == Key::Down {
                (MenuView { sel: sel_down(m.sel), ..m }, MenuAction::Nothing)
            } else if k == Key::Enter {
                (on_screen(m, Screen::Difficulty), MenuAction::Nothing)
            } else {
                (m, MenuAction::Nothing)
            }
        },
        Screen::Difficulty => {
            if is_back_key(k) {
                (on_screen(m, Screen::Select), MenuAction::Nothing)
            } else if k == Key::Up || k == Key::Right {
                (MenuView { level: level_up(m.level), ..m }, MenuAction::Nothing)
            } else if k == Key::Down || k == Key::Left {
                (MenuView { level: level_down(m.level), ..m }, MenuAction::Nothing)
            } else if k == Key::Enter {
                if m.mode == Mode::Host {
                    (on_screen(m, Screen::Play), MenuAction::HostWorld(m.sel, m.level))
                } else {
                    (on_screen(m, Screen::Play), MenuAction::StartWorld(m.sel, m.level))
                }
            } else {
                (m, MenuAction::Nothing)
            }
        },
        Screen::Address => {
            if k == Key::Esc {
                (on_screen(m, Screen::Mode), MenuAction::Nothing)
            } else if k == Key::Backspace {
                if m.address.len() > 0 {
                    (MenuView { address: m.address.drop_last(), ..m }, MenuAction::Nothing)
                } else {
                    (m, MenuAction::Nothing)
                }
            } else if k == Key::Enter {
                if m.address.len() > 0 {
                    (on_screen(m, Screen::Play), MenuAction::Join)
                } else {
                    (m, MenuAction::Nothing)
                }
            } else if k matches Key::Char(c) && address_char(c) {
                (
                    MenuView { address: m.address.push((k->Char_0) as u8), ..m },
                    MenuAction::Nothing,
                )
            } else {
                (m, MenuAction::Nothing)
            }
        },
        Screen::Play => {
            if is_back_key(k) {
                if m.mode == Mode::Join {
                    (on_screen(m, Screen::Mode), MenuAction::LeaveWorld)
                } else {
                    (on_screen(m, Screen::Select), MenuAction::LeaveWorld)
                }
            } else {
                (m, MenuAction::Nothing)
            }
        },
    }
}

/// What holds of every menu: a world of the table is highlighted, the level
/// is within bounds, the address holds only typeable characters, the address
/// screen shows only when joining, and the world and difficulty screens never
/// do then.
pub open spec fn menu_ok(m: MenuView) -> bool {
    &&& m.sel < WORLD_COUNT
    &&& MIN_LEVEL <= m.level <= MAX_LEVEL
    &&& forall|i: int| 0 <= i < m.address.len() ==> address_byte(#[trigger] m.address[i])
    &&& m.screen == Screen::Address ==> m.mode == Mode::Join
    &&& (m.screen == Screen::Select || m.screen == Screen::Difficulty) ==> m.mode != Mode::Join
}

impl View for Menu {
    type V = MenuView;

    closed spec fn view(&self) -> MenuView {
        MenuView {
            screen: self.screen,
            mode: self.mode,
            sel: self.sel,
            level: self.level,
            address: self.address@,
        }
    }
}

/// Every key keeps the menu within bounds.
pub proof fn lemma_menu_stays_ok(m: MenuView, k: Key)
    requires
        menu_ok(m),
    ensures
        menu_ok(menu_next(m, k).0),
{
    let n = menu_next(m, k).0;
    if m.screen == Screen::Address && k == Key::Backspace && m.address.len() > 0 {
        assert forall|i: int| 0 <= i < n.address.len() implies address_byte(
            #[trigger] n.address[i],
        ) by {
            assert(n.address[i] == m.address[i]);
        }
    }
    if m.screen == Screen::Address && k != Key::Esc && k != Key::Backspace && k != Key::Enter {
        if k is Char && address_char(k->Char_0) {
            let b = (k->Char_0) as u8;
            assert(n.address == m.address.push(b));
            assert forall|i: int| 0 <= i < n.address.len() implies address_byte(
                #[trigger] n.address[i],
            ) by {
                if i < m.address.len() {
                    assert(n.address[i] == m.address[i]);
                }
            }
        }
    }
}

/// Esc and `q` lead back one screen at a time from every menu screen: from
/// the world list to the modes, from the modes to the title; Esc leads from
/// the address back to the modes, and from the difficulty back to the worlds.
pub proof fn lemma_back_goes_up(m: MenuView)
    ensures
        m.screen == Screen::Mode ==> menu_next(m, Key::Esc).0.screen == Screen::Title,
        m.screen == Screen::Select ==> menu_next(m, Key::Esc).0.screen == Screen::Mode,
        m.screen == Screen::Difficulty ==> menu_next(m, Key::Esc).0.screen == Screen::Select,
        m.screen == Screen::Address ==> menu_next(m, Key::Esc).0.screen == Screen::Mode,
        m.screen != Screen::Play ==> menu_next(m, Key::Esc).1 != MenuAction::LeaveWorld,
{
}

/// A game starts only as the flow leads to it: single play and hosting
/// through the difficulty screen, with a world of the table and a level in
/// bounds, in the mode that was picked (never in join mode); joining only from
/// the address screen, in join mode, with an address typed.
pub proof fn lemma_actions_follow_the_flow(m: MenuView, k: Key)
    requires
        menu_ok(m),
    ensures
        menu_next(m, k).1 matches MenuAction::StartWorld(w, l) ==> {
            &&& m.screen == Screen::Difficulty
            &&& m.mode == Mode::Single
            &&& w == m.sel && w < WORLD_COUNT
            &&& l == m.level && MIN_LEVEL <= l <= MAX_LEVEL
        },
        menu_next(m, k).1 matches MenuAction::HostWorld(w, l) ==> {
            &&& m.screen == Screen::Difficulty
            &&& m.mode == Mode::Host
            &&& w == m.sel && w < WORLD_COUNT
            &&& l == m.level && MIN_LEVEL <= l <= MAX_LEVEL
        },
        menu_next(m, k).1 == MenuAction::Join ==> {
            &&& m.screen == Screen::Address
            &&& m.mode == Mode::Join
            &&& m.address.len() > 0
        },
{
}

/// The modes are the rows Single Player, Host Game, Join Game, in that order:
/// Down steps to the next row (from the last back to the first) and Up undoes
/// it, so three presses of Down visit all three modes and come back.
pub proof fn lemma_mode_rows(m: Mode)
    ensures
        mode_down(Mode::Single) == Mode::Host,
        mode_down(Mode::Host) == Mode::Join,
        mode_down(Mode::Join) == Mode::Single,
        mode_down(mode_up(m)) == m,
        mode_up(mode_down(m)) == m,
        m != mode_down(m) && m != mode_down(mode_down(m)) && mode_down(m) != mode_down(
            mode_down(m),
        ),
        mode_down(mode_down(mode_down(m))) == m,
{
}

/// On the menu's screens the arrows move as rows and levels do: on the mode
/// screen Down and Up undo each other; on the world list Down steps to the
/// next world (from the last to the first) and Up to the one before (staying
/// on the first); on the difficulty screen Up and Right raise the level by one
/// and Down and Left lower it by one, within 1 ..= 10.
pub proof fn lemma_menu_arrows(v: MenuView)
    requires
        menu_ok(v),
    ensures
        v.screen == Screen::Mode ==> menu_next(menu_next(v, Key::Down).0, Key::Up).0 == v,
        v.screen == Screen::Mode ==> menu_next(menu_next(v, Key::Up).0, Key::Down).0 == v,
        v.screen == Screen::Mode && v.mode == Mode::Host ==> menu_next(v, Key::Down).0.mode
            == Mode::Join,
        v.screen == Screen::Select ==> menu_next(v, Key::Down).0.sel == if v.sel + 1
            < WORLD_COUNT {
            v.sel + 1
        } else {
            0
        },
        v.screen == Screen::Select ==> menu_next(v, Key::Up).0.sel == if v.sel > 0 {
            v.sel - 1
        } else {
            0
        },
        v.screen == Screen::Difficulty ==> menu_next(v, Key::Up).0.level == menu_next(
            v,
            Key::Right,
        ).0.level && menu_next(v, Key::Up).0.level == if v.level < 10 {
            v.level + 1
        } else {
            10
        },
        v.screen == Screen::Difficulty ==> menu_next(v, Key::Down).0.level == menu_next(
            v,
            Key::Left,
        ).0.level && menu_next(v, Key::Down).0.level == if v.level > 1 {
            v.level - 1
        } else {
            1
        },
{
    if v.screen == Screen::Select {
        let s = v.sel;
        if s == 0 {
            assert(vstd::wrapping::usize_specs::wrapping_sub(s, 1) == usize::MAX);
            assert(usize::MAX == 0xffff_ffff || usize::MAX == 0xffff_ffff_ffff_ffff);
            assert(usize::MAX % 5 == 0) by (nonlinear_arith)
                requires
                    usize::MAX == 0xffff_ffff || usize::MAX == 0xffff_ffff_ffff_ffff,
            ;
            assert(sel_up(s) == 0);
        } else {
            assert(vstd::wrapping::usize_specs::wrapping_sub(s, 1) == s - 1);
            let d: usize = (s - 1) as usize;
            assert(d % 5 == d) by (nonlinear_arith)
                requires
                    d < 5,
            ;
            assert(sel_up(s) == s - 1);
        }
    }
}

/// Enter (or Space on the title) leads forward along the flow: title to
/// modes; modes to the world list, or to the address when joining; world list
/// to difficulty; difficulty to play, starting or hosting the highlighted
/// world at the chosen level; the address to play, joining, once one is
/// typed. Other keys than Esc and `q` never leave the title, and the title
/// quits on Esc and `q`.
pub proof fn lemma_enter_goes_forward(v: MenuView)
    ensures
        v.screen == Screen::Title ==> menu_next(v, Key::Enter).0.screen == Screen::Mode
            && menu_next(v, Key::Char(' ')).0.screen == Screen::Mode,
        v.screen == Screen::Title ==> menu_next(v, Key::Esc).1 == MenuAction::Quit
            && menu_next(v, Key::Char('q')).1 == MenuAction::Quit,
        v.screen == Screen::Mode && v.mode == Mode::Join ==> menu_next(v, Key::Enter).0.screen
            == Screen::Address,
        v.screen == Screen::Mode && v.mode != Mode::Join ==> menu_next(v, Key::Enter).0.screen
            == Screen::Select,
        v.screen == Screen::Select ==> menu_next(v, Key::Enter).0.screen == Screen::Difficulty,
        v.screen == Screen::Difficulty ==> menu_next(v, Key::Enter).0.screen == Screen::Play,
        v.screen == Screen::Difficulty && v.mode == Mode::Host ==> menu_next(v, Key::Enter).1
            == MenuAction::HostWorld(v.sel, v.level),
        v.screen == Screen::Difficulty && v.mode != Mode::Host ==> menu_next(v, Key::Enter).1
            == MenuAction::StartWorld(v.sel, v.level),
        v.screen == Screen::Address && v.address.len() > 0 ==> menu_next(v, Key::Enter)
            == (on_screen(v, Screen::Play), MenuAction::Join),
        v.screen == Screen::Play && v.mode == Mode::Join ==> menu_next(v, Key::Esc) == (
            on_screen(v, Screen::Mode),
            MenuAction::LeaveWorld,
        ),
        v.screen == Screen::Play && v.mode != Mode::Join ==> menu_next(v, Key::Esc) == (
            on_screen(v, Screen::Select),
            MenuAction::LeaveWorld,
        ),
{
}

/// On the address screen, a typed printable character is appended and
/// Backspace takes the last one off again.
pub proof fn lemma_address_typing(v: MenuView, c: char)
    requires
        v.screen == Screen::Address,
        0x21 <= (c as u32) <= 0x7e,
    ensures
        menu_next(v, Key::Char(c)).0.address == v.address.push(c as u8),
        menu_next(menu_next(v, Key::Char(c)).0, Key::Backspace).0 == v,
        menu_next(v, Key::Char(' ')).0 == v,
{
    let w = menu_next(v, Key::Char(c)).0;
    assert(w.address.drop_last() =~= v.address);
}

impl Menu {
    #[verifier::type_invariant]
    spec fn inv(self) -> bool {
        menu_ok(self@)
    }

    /// The title screen, with single player, the first world and the middle
    /// level highlighted, and no address typed.
    pub fn new() -> (m: Self)
        ensures
            m@ == (MenuView {
                screen: Screen::Title,
                mode: Mode::Single,
                sel: 0,
                level: START_LEVEL,
                address: Seq::empty(),
            }),
    {
        let m = Menu {
            screen: Screen::Title,
            mode: Mode::Single,
            sel: 0,
            level: START_LEVEL,
            address: Vec::new(),
        };
        assert(m@.address =~= Seq::<u8>::empty());
        m
    }

    pub fn screen(&self) -> (s: Screen)
        ensures
            s == self@.screen,
    {
        self.screen
    }

    pub fn mode(&self) -> (m: Mode)
        ensures
            m == self@.mode,
    {
        self.mode
    }

    pub fn sel(&self) -> (i: usize)
        ensures
            i == self@.sel,
            i < WORLD_COUNT,
    {
        proof {
            use_type_invariant(self);
        }
        self.sel
    }

    pub fn level(&self) -> (l: i32)
        ensures
            l == self@.level,
            MIN_LEVEL <= l <= MAX_LEVEL,
    {
        proof {
            use_type_invariant(self);
        }
        self.level
    }

    /// The address typed so far, as ASCII bytes.
    pub fn address(&self) -> (a: &[u8])
        ensures
            a@ == self@.address,
    {
        self.address.as_slice()
    }

    /// Handles a key press: Enter or Space leaves the title; Up and Down move
    /// the highlight through the modes and the worlds; Enter picks; the
    /// arrows change the level and Enter starts (or hosts) the game; typed
    /// characters and Backspace edit the address, and Enter joins; Esc or `q`
    /// goes back one screen (and quits from the title; on the address screen
    /// only Esc goes back, as `q` is typed).
    pub fn handle_key(&mut self, k: Key) -> (a: MenuAction)
        ensures
            final(self)@ == menu_next(old(self)@, k).0,
            a == menu_next(old(self)@, k).1,
            menu_ok(final(self)@),
    {
        proof {
            use_type_invariant(&*self);
            lemma_menu_stays_ok(self@, k);
        }
        match self.screen {
            Screen::Title => {
                if k == Key::Esc || k == Key::Char('q') {
                    MenuAction::Quit
                } else if k == Key::Enter || k == Key::Char(' ') {
                    self.screen = Screen::Mode;
                    MenuAction::Nothing
                } else {
                    MenuAction::Nothing
                }
            },
            Screen::Mode => {
                if k == Key::Esc || k == Key::Char('q') {
                    self.screen = Screen::Title;
                } else if k == Key::Up {
                    self.mode =
                    match self.mode {
                        Mode::Single => Mode::Join,
                        Mode::Host => Mode::Single,
                        Mode::Join => Mode::Host,
                    };
                } else if k == Key::Down {
                    self.mode =
                    match self.mode {
                        Mode::Single => Mode::Host,
                        Mode::Host => Mode::Join,
                        Mode::Join => Mode::Single,
                    };
                } else if k == Key::Enter {
                    if self.mode == Mode::Join {
                        self.screen = Screen::Address;
                    } else {
                        self.screen = Screen::Select;
                    }
                }
                MenuAction::Nothing
            },
            Screen::Select => {
                if k == Key::Esc || k == Key::Char('q') {
                    self.screen = Screen::Mode;
                } else if k == Key::Up {
                    self.sel = self.sel.wrapping_sub(1) % WORLD_COUNT;
                } else if k == Key::Down {
                    self.sel = (self.sel + 1) % WORLD_COUNT;
                } else if k == Key::Enter {
                    self.screen = Screen::Difficulty;
                }
                MenuAction::Nothing
            },
            Screen::Difficulty => {
                if k == Key::Esc || k == Key::Char('q') {
                    self.screen = Screen::Select;
                    MenuAction::Nothing
                } else if k == Key::Up || k == Key::Right {
                    if self.level < MAX_LEVEL {
                        self.level = self.level + 1;
                    }
                    MenuAction::Nothing
                } else if k == Key::Down || k == Key::Left {
                    if self.level > MIN_LEVEL {
                        self.level = self.level - 1;
                    }
                    MenuAction::Nothing
                } else if k == Key::Enter {
                    self.screen = Screen::Play;
                    if self.mode == Mode::Host {
                        MenuAction::HostWorld(self.sel, self.level)
                    } else {
                        MenuAction::StartWorld(self.sel, self.level)
                    }
                } else {
                    MenuAction::Nothing
                }
            },
            Screen::Address => self.edit_address(k),
            Screen::Play => {
                if k == Key::Esc || k == Key::Char('q') {
                    if self.mode == Mode::Join {
                        self.screen = Screen::Mode;
                    } else {
                        self.screen = Screen::Select;
                    }
                    MenuAction::LeaveWorld
                } else {
                    MenuAction::Nothing
                }
            },
        }
    }

    /// A key on the address screen.
    fn edit_address(&mut self, k: Key) -> (a: MenuAction)
        requires
            old(self)@.screen == Screen::Address,
        ensures
            final(self)@ == menu_next(old(self)@, k).0,
            a == menu_next(old(self)@, k).1,
    {
        proof {
            use_type_invariant(&*self);
            lemma_menu_stays_ok(self@, k);
        }
        match k {
            Key::Esc => {
                self.screen = Screen::Mode;
                MenuAction::Nothing
            },
            Key::Backspace => {
                if self.address.len() > 0 {
                    let mut addr: Vec<u8> = Vec::new();
                    std::mem::swap(&mut addr, &mut self.address);
                    addr.pop();
                    self.address = addr;
                }
                MenuAction::Nothing
            },
            Key::Enter => {
                if self.address.len() > 0 {
                    self.screen = Screen::Play;
                    MenuAction::Join
                } else {
                    MenuAction::Nothing
                }
            },
            Key::Char(c) => {
                let v = c as u32;
                if 0x21 <= v && v <= 0x7e {
                    let mut addr: Vec<u8> = Vec::new();
                    std::mem::swap(&mut addr, &mut self.address);
                    addr.push(v as u8);
                    self.address = addr;
                }
                MenuAction::Nothing
            },
            _ => MenuAction::Nothing,
        }
    }
}

// ---------------------------------------------------------------------------
// held keys
// ---------------------------------------------------------------------------

/// How a held key moves the camera while playing.
#[derive(Clone, Copy, PartialEq, Eq, Structural, Debug)]
pub enum Motion {
    TurnLeft,
    TurnRight,
    Forward,
    Back,
    StrafeLeft,
    StrafeRight,
    Stay,
}

pub open spec fn motion_of(k: Key) -> Motion {
    if k == Key::Left {
        Motion::TurnLeft
    } else if k == Key::Right {
        Motion::TurnRight
    } else if k == Key::Up || k == Key::Char('w') || k == Key::Char('W') {
        Motion::Forward
    } else if k == Key::Down || k == Key::Char('s') || k == Key::Char('S') {
        Motion::Back
    } else if k == Key::Char('a') || k == Key::Char('A') {
        Motion::StrafeLeft
    } else if k == Key::Char('d') || k == Key::Char('D') {
        Motion::StrafeRight
    } else {
        Motion::Stay
    }
}

/// Only the movement keys move: the arrows turn and walk, W and S walk, A
/// and D strafe (either case); every other key, Space and Enter (the shoot
/// keys) among them, leaves the camera where it is.
pub proof fn lemma_only_movement_keys_move(k: Key)
    ensures
        (motion_of(k) == Motion::Forward) <==> (k == Key::Up || k == Key::Char('w') || k == Key::Char('W')),
        (motion_of(k) == Motion::Back) <==> (k == Key::Down || k == Key::Char('s') || k == Key::Char('S')),
        (motion_of(k) == Motion::TurnLeft) <==> k == Key::Left,
        (motion_of(k) == Motion::TurnRight) <==> k == Key::Right,
        (motion_of(k) == Motion::StrafeLeft) <==> (k == Key::Char('a') || k == Key::Char('A')),
        (motion_of(k) == Motion::StrafeRight) <==> (k == Key::Char('d') || k == Key::Char('D')),
        k == Key::Char(' ') || k == Key::Enter ==> motion_of(k) == Motion::Stay,
{
}

/// The motion a held key asks for: arrows turn and walk, WASD walk and strafe.
pub fn key_motion(k: Key) -> (m: Motion)
    ensures
        m == motion_of(k),
        (m == Motion::Forward) <==> (k == Key::Up || k == Key::Char('w') || k == Key::Char('W')),
        (m == Motion::Back) <==> (k == Key::Down || k == Key::Char('s') || k == Key::Char('S')),
        (m == Motion::TurnLeft) <==> k == Key::Left,
        (m == Motion::TurnRight) <==> k == Key::Right,
        (m == Motion::StrafeLeft) <==> (k == Key::Char('a') || k == Key::Char('A')),
        (m == Motion::StrafeRight) <==> (k == Key::Char('d') || k == Key::Char('D')),
        k == Key::Char(' ') || k == Key::Enter ==> m == Motion::Stay,
{
    match k {
        Key::Left => Motion::TurnLeft,
        Key::Right => Motion::TurnRight,
        Key::Up | Key::Char('w') | Key::Char('W') => Motion::Forward,
        Key::Down | Key::Char('s') | Key::Char('S') => Motion::Back,
        Key::Char('a') | Key::Char('A') => Motion::StrafeLeft,
        Key::Char('d') | Key::Char('D') => Motion::StrafeRight,
        _ => Motion::Stay,
    }
}

// ---------------------------------------------------------------------------
// weather of the single-player game
// ---------------------------------------------------------------------------

/// The outcome of a weather roll.
#[derive(Clone, Copy, PartialEq, Eq, Structural, Debug)]
pub struct WeatherRoll {
    /// The generator state after the roll.
    pub state: u64,
    /// The new weather.
    pub weather: Weather,
    /// How long it lasts beyond the first 8 seconds, in hundredths of a second.
    pub hold_centis: u64,
}

/// Advances the generator one step and draws the next weather for a world of
/// theme `theme` from it, with how long that weather holds.
pub fn roll_weather(state: u64, theme: Theme) -> (r: WeatherRoll)
    ensures
        r.state == lcg_step(state),
        r.weather == theme_weather(weather_roll(((r.state >> 33u64) % 100) as int), theme),
        r.hold_centis == r.state % 1200,
        r.hold_centis < 1200,
        (r.state >> 33u64) % 100 < 45 ==> r.weather == Weather::Clear,
        45 <= (r.state >> 33u64) % 100 < 72 ==> r.weather == Weather::Rain,
        72 <= (r.state >> 33u64) % 100 < 80 ==> r.weather == if theme == Theme::Frozen || theme
            == Theme::Valley {
            Weather::Snow
        } else {
            Weather::Fog
        },
        80 <= (r.state >> 33u64) % 100 ==> r.weather == Weather::Fog,
{
    let s = lcg_next(state);
    let n = (s >> 33u64) % 100;
    let w = pick_weather(n, theme);
    WeatherRoll { state: s, weather: w, hold_centis: s % 1200 }
}

pub open spec fn weather_text(w: Weather) -> Seq<char> {
    match w {
        Weather::Clear => "SUNNY"@,
        Weather::Rain => "RAIN"@,
        Weather::Snow => "SNOW"@,
        Weather::Fog => "FOG "@,
    }
}

/// The four-letter weather tag of the heads-up display.
pub fn weather_label(w: Weather) -> (s: &'static str)
    ensures
        s@ == weather_text(w),
        w == Weather::Clear ==> s@ == "SUNNY"@,
        w == Weather::Rain ==> s@ == "RAIN"@,
        w == Weather::Snow ==> s@ == "SNOW"@,
        w == Weather::Fog ==> s@ == "FOG "@,
{
    match w {
        Weather::Clear => "SUNNY",
        Weather::Rain => "RAIN",
        Weather::Snow => "SNOW",
        Weather::Fog => "FOG ",
    }
}

pub open spec fn theme_label(t: Theme) -> Seq<char> {
    match t {
        Theme::Valley => "Valley"@,
        Theme::Desert => "Desert"@,
        Theme::Frozen => "Frozen"@,
        Theme::Tropical => "Tropical"@,
        Theme::Forest => "Forest"@,
    }
}

/// Short name of a theme, as the world list shows it.
pub fn theme_name(t: Theme) -> (s: &'static str)
    ensures
        s@ == theme_label(t),
        t == Theme::Valley ==> s@ == "Valley"@,
        t == Theme::Desert ==> s@ == "Desert"@,
        t == Theme::Frozen ==> s@ == "Frozen"@,
        t == Theme::Tropical ==> s@ == "Tropical"@,
        t == Theme::Forest ==> s@ == "Forest"@,
{
    match t {
        Theme::Valley => "Valley",
        Theme::Desert => "Desert",
        Theme::Frozen => "Frozen",
        Theme::Tropical => "Tropical",
        Theme::Forest => "Forest",
    }
}

} // verus!
