//! The keyboard and mouse decisions of the menu: which input is pressed, whether
//! a bound key is held, and how a key binding is edited.
use vstd::prelude::*;

use crate::config::{AimbotConfig, Config, KeyConfig};
use crate::globals::Globals;

verus! {

/// A pressed input: a keyboard scancode, a mouse button (1 = left .. 5 = second
/// extra button), or nothing.
#[derive(Clone, Copy, PartialEq, Eq, Structural, Debug)]
pub enum Input {
    Key(u32),
    MouseButton(u32),
    NoInput,
}

impl Default for Input {
    /// Nothing pressed.
    fn default() -> (res: Input)
        ensures
            res == Input::NoInput,
    {
        Input::NoInput
    }
}

/// The scancode of the Escape key, which cancels the editing of a binding.
pub const SCANCODE_ESCAPE: u32 = 41;

/// The mouse button `b` (1-based) is down in the button mask `state`.
pub open spec fn mouse_down(state: u32, b: u32) -> bool {
    state & (1u32 << ((b - 1) as u32)) != 0
}

/// Position of the first non-zero entry of `keys`, or `keys.len()`.
pub open spec fn first_pressed(keys: Seq<u8>) -> int
    decreases keys.len(),
{
    if keys.len() == 0 {
        0
    } else if keys[0] != 0 {
        0
    } else {
        1 + first_pressed(keys.drop_first())
    }
}

/// The first of the mouse buttons `b .. 5` that is down, or 6.
pub open spec fn first_button(state: u32, b: u32) -> u32
    decreases 6 - b,
{
    if b > 5 {
        6
    } else if mouse_down(state, b) {
        b
    } else {
        first_button(state, (b + 1) as u32)
    }
}

/// The input that `get_input_pressed` reports for the keyboard state `keys`
/// (one entry per scancode) and the mouse button mask `mouse`: the first
/// pressed key, else the first pressed mouse button, else nothing.
pub open spec fn pressed_input(keys: Seq<u8>, mouse: u32) -> Input {
    if first_pressed(keys) < keys.len() {
        Input::Key(first_pressed(keys) as u32)
    } else if first_button(mouse, 1) <= 5 {
        Input::MouseButton(first_button(mouse, 1))
    } else {
        Input::NoInput
    }
}

proof fn lemma_first_pressed_is(keys: Seq<u8>, k: int)
    requires
        0 <= k <= keys.len(),
        forall|j: int| 0 <= j < k ==> keys[j] == 0,
        k < keys.len() ==> keys[k] != 0,
    ensures
        first_pressed(keys) == k,
    decreases keys.len(),
{
    if keys.len() > 0 && k > 0 {
        assert forall|j: int| 0 <= j < k - 1 implies keys.drop_first()[j] == 0 by {
            assert(keys.drop_first()[j] == keys[j + 1]);
        }
        lemma_first_pressed_is(keys.drop_first(), k - 1);
    }
}

/// Whether the mouse button `code` is down in the mask `state`.
pub fn mouse_button_down(state: u32, code: u32) -> (res: bool)
    requires
        1 <= code <= 32,
    ensures
        res == mouse_down(state, code),
{
    state & (1u32 << (code - 1)) != 0
}

/// The first pressed input: the first key whose entry in `keys` is not 0,
/// else the first of mouse buttons 1 .. 5 down in `mouse`, else nothing.
pub fn get_input_pressed(keys: &[u8], mouse: u32) -> (res: Input)
    requires
        keys@.len() <= u32::MAX,
    ensures
        res == pressed_input(keys@, mouse),
{
    let mut i: usize = 0;
    while i < keys.len() && keys[i] == 0
        invariant
            i <= keys@.len(),
            forall|j: int| 0 <= j < i ==> keys@[j] == 0,
        decreases keys@.len() - i,
    {
        i = i + 1;
    }
    proof {
        lemma_first_pressed_is(keys@, i as int);
    }
    if i < keys.len() {
        return Input::Key(i as u32);
    }
    let mut b: u32 = 1;
    while b <= 5 && !mouse_button_down(mouse, b)
        invariant
            1 <= b <= 6,
            first_button(mouse, 1) == first_button(mouse, b),
        decreases 6 - b,
    {
        b = b + 1;
    }
    if b <= 5 {
        Input::MouseButton(b)
    } else {
        Input::NoInput
    }
}

/// Whether the bound input `code` is held: the mouse button `code` in the mask
/// `mouse`, or the key with scancode `code` in `keys`.
pub fn is_input_pressed(code: u32, is_mouse_button: bool, keys: &[u8], mouse: u32) -> (res: bool)
    requires
        is_mouse_button ==> 1 <= code <= 32,
        !is_mouse_button ==> code < keys@.len(),
    ensures
        is_mouse_button ==> res == mouse_down(mouse, code),
        !is_mouse_button ==> res == (keys@[code as int] != 0),
{
    if is_mouse_button {
        mouse_button_down(mouse, code)
    } else {
        keys[code as usize] != 0
    }
}

/// While a binding is being edited, the pressed input ends the editing: a key
/// other than Escape becomes the binding, a mouse button becomes the binding,
/// and Escape leaves the binding as it was. With nothing pressed, or when not
/// editing, nothing changes.
pub fn handle_key_edit(editing_flag: &mut bool, key_config: &mut KeyConfig, pressed: Input)
    ensures
        !*old(editing_flag) ==> *final(editing_flag) == false && *final(key_config) == *old(key_config),
        *old(editing_flag) ==> match pressed {
            Input::Key(code) => !*final(editing_flag) && *final(key_config) == (if code != SCANCODE_ESCAPE {
                KeyConfig { is_mouse_button: false, code: code, ..*old(key_config) }
            } else {
                *old(key_config)
            }),
            Input::MouseButton(b) => !*final(editing_flag)
                && *final(key_config) == (KeyConfig { is_mouse_button: true, code: b, ..*old(key_config) }),
            Input::NoInput => *final(editing_flag) && *final(key_config) == *old(key_config),
        },
{
    if !*editing_flag {
        return;
    }
    match pressed {
        Input::Key(code) => {
            *editing_flag = false;
            if code != SCANCODE_ESCAPE {
                key_config.is_mouse_button = false;
                key_config.code = code;
            }
        },
        Input::MouseButton(btn) => {
            *editing_flag = false;
            key_config.is_mouse_button = true;
            key_config.code = btn;
        },
        Input::NoInput => {},
    }
}

/// The menu's visibility after a frame: toggled when the toggle key was
/// released. Returns whether it was.
pub fn is_draw_key_released(do_draw: &mut bool, released: bool) -> (res: bool)
    ensures
        res == released,
        *final(do_draw) == (if released { !*old(do_draw) } else { *old(do_draw) }),
{
    if released {
        *do_draw = !*do_draw;
        return true;
    }
    false
}

/// A binding after the input `p` while it does (`editing`) or does not wait
/// for a key: whether it still waits, and the binding.
pub open spec fn key_edit(editing: bool, key: KeyConfig, p: Input) -> (bool, KeyConfig) {
    if !editing {
        (false, key)
    } else {
        match p {
            Input::Key(code) => (false, if code != SCANCODE_ESCAPE {
                KeyConfig { is_mouse_button: false, code: code, ..key }
            } else {
                key
            }),
            Input::MouseButton(b) => (false, KeyConfig { is_mouse_button: true, code: b, ..key }),
            Input::NoInput => (true, key),
        }
    }
}

/// Whether the binding `key` can be read: a mouse button 1 .. 32, or a
/// scancode of a keyboard state of `n_keys` entries.
pub open spec fn readable(key: KeyConfig, n_keys: nat) -> bool {
    if key.is_mouse_button {
        1 <= key.code <= 32
    } else {
        key.code < n_keys
    }
}

/// Whether the binding `key` can be read from a keyboard state of `n_keys`
/// entries.
pub fn key_readable(key: &KeyConfig, n_keys: usize) -> (res: bool)
    ensures
        res == readable(*key, n_keys as nat),
{
    if key.is_mouse_button {
        1 <= key.code && key.code <= 32
    } else {
        (key.code as usize) < n_keys
    }
}

/// Whether the binding `key` is held in the keyboard state `keys` and the
/// mouse button mask `mouse`.
pub open spec fn held(key: KeyConfig, keys: Seq<u8>, mouse: u32) -> bool {
    if key.is_mouse_button {
        mouse_down(mouse, key.code)
    } else {
        keys[key.code as int] != 0
    }
}

/// The configuration after an event that went to the menu: each binding that
/// waited for a key has taken the pressed input `p`.
pub open spec fn config_after_edit(c: Config, g: Globals, p: Input) -> Config {
    Config {
        aimbot: AimbotConfig { key: key_edit(g.aimbot_key_editing, c.aimbot.key, p).1, ..c.aimbot },
        thirdperson: key_edit(g.thirdperson_key_editing, c.thirdperson, p).1,
        ..c
    }
}

/// The shared values after an input event: after one that went to the menu,
/// which bindings still wait for a key; after any other polled event, which
/// bound keys are held.
pub open spec fn globals_after_event(
    polled: bool,
    to_menu: bool,
    c: Config,
    g: Globals,
    keys: Seq<u8>,
    mouse: u32,
) -> Globals {
    if polled && to_menu {
        let p = pressed_input(keys, mouse);
        Globals {
            aimbot_key_editing: key_edit(g.aimbot_key_editing, c.aimbot.key, p).0,
            thirdperson_key_editing: key_edit(g.thirdperson_key_editing, c.thirdperson, p).0,
            ..g
        }
    } else if polled {
        Globals {
            aimbot_key_down: held(c.aimbot.key, keys, mouse),
            thirdperson_pressed: held(c.thirdperson, keys, mouse),
            ..g
        }
    } else {
        g
    }
}

/// What an input event does. `polled` says that the game's poll returned an
/// event, `to_menu` that it went to the menu while the menu is shown; `keys`
/// and `mouse` are the keyboard and mouse state. An event for the menu feeds
/// the key bindings that wait for a key and is the menu's own (the result is
/// `true`); any other polled event updates which bound keys are held.
pub fn on_input_event(
    polled: bool,
    to_menu: bool,
    config: &mut Config,
    globals: &mut Globals,
    keys: &[u8],
    mouse: u32,
) -> (captured: bool)
    requires
        keys@.len() <= u32::MAX,
        polled && !to_menu ==> readable(old(config).aimbot.key, keys@.len())
            && readable(old(config).thirdperson, keys@.len()),
    ensures
        captured == (polled && to_menu),
        *final(config) == (if polled && to_menu {
            config_after_edit(*old(config), *old(globals), pressed_input(keys@, mouse))
        } else {
            *old(config)
        }),
        *final(globals) == globals_after_event(polled, to_menu, *old(config), *old(globals), keys@, mouse),
{
    if polled && to_menu {
        let p = get_input_pressed(keys, mouse);
        handle_key_edit(&mut globals.aimbot_key_editing, &mut config.aimbot.key, p);
        handle_key_edit(&mut globals.thirdperson_key_editing, &mut config.thirdperson, p);
        return true;
    }
    if polled {
        globals.aimbot_key_down = is_input_pressed(config.aimbot.key.code, config.aimbot.key.is_mouse_button, keys, mouse);
        globals.thirdperson_pressed = is_input_pressed(config.thirdperson.code, config.thirdperson.is_mouse_button, keys, mouse);
    }
    false
}


/// After a polled event that does not go to the menu, each of the two bound
/// keys is reported held exactly when its own binding is held (its mouse
/// button in the mask, or its scancode's entry in `keys`), whatever the
/// other binding is; nothing else changes.
pub proof fn lemma_bound_keys_law(c: Config, g: Globals, keys: Seq<u8>, mouse: u32)
    ensures
        ({
            let r = globals_after_event(true, false, c, g, keys, mouse);
            &&& c.thirdperson.is_mouse_button ==> r.thirdperson_pressed == mouse_down(mouse, c.thirdperson.code)
            &&& !c.thirdperson.is_mouse_button ==> r.thirdperson_pressed == (keys[c.thirdperson.code as int] != 0)
            &&& c.aimbot.key.is_mouse_button ==> r.aimbot_key_down == mouse_down(mouse, c.aimbot.key.code)
            &&& !c.aimbot.key.is_mouse_button ==> r.aimbot_key_down == (keys[c.aimbot.key.code as int] != 0)
            &&& r.target == g.target
            &&& r.aimbot_key_editing == g.aimbot_key_editing
            &&& r.thirdperson_key_editing == g.thirdperson_key_editing
        }),
        forall|k: KeyConfig|
            #[trigger] globals_after_event(true, false, Config { aimbot: AimbotConfig { key: k, ..c.aimbot }, ..c }, g, keys, mouse).thirdperson_pressed
                == globals_after_event(true, false, c, g, keys, mouse).thirdperson_pressed,
        forall|k: KeyConfig|
            #[trigger] globals_after_event(true, false, Config { thirdperson: k, ..c }, g, keys, mouse).aimbot_key_down
                == globals_after_event(true, false, c, g, keys, mouse).aimbot_key_down,
{
}

/// An event for the menu never changes which keys are reported held, and an
/// event that was not polled changes nothing.
pub proof fn lemma_menu_event_law(to_menu: bool, c: Config, g: Globals, keys: Seq<u8>, mouse: u32)
    ensures
        globals_after_event(false, to_menu, c, g, keys, mouse) == g,
        globals_after_event(true, true, c, g, keys, mouse).aimbot_key_down == g.aimbot_key_down,
        globals_after_event(true, true, c, g, keys, mouse).thirdperson_pressed == g.thirdperson_pressed,
{
}


/// After an event that went to the menu, a binding that does not wait for a
/// key is left as it is; one that waits takes a pressed key other than Escape
/// (as a key) or a pressed mouse button (as a button), keeping whether it is
/// used at all, and Escape leaves it as it was; every other setting is
/// unchanged.
pub proof fn lemma_binding_edit_law(c: Config, g: Globals, p: Input)
    ensures
        ({
            let r = config_after_edit(c, g, p);
            &&& (Config { aimbot: AimbotConfig { key: c.aimbot.key, ..r.aimbot }, thirdperson: c.thirdperson, ..r }) == c
            &&& !g.aimbot_key_editing ==> r.aimbot.key == c.aimbot.key
            &&& !g.thirdperson_key_editing ==> r.thirdperson == c.thirdperson
            &&& g.thirdperson_key_editing ==> match p {
                Input::Key(k) => if k == SCANCODE_ESCAPE {
                    r.thirdperson == c.thirdperson
                } else {
                    r.thirdperson.code == k && !r.thirdperson.is_mouse_button && r.thirdperson.use_key == c.thirdperson.use_key
                },
                Input::MouseButton(b) => r.thirdperson.code == b && r.thirdperson.is_mouse_button
                    && r.thirdperson.use_key == c.thirdperson.use_key,
                Input::NoInput => r.thirdperson == c.thirdperson,
            }
            &&& g.aimbot_key_editing ==> match p {
                Input::Key(k) => if k == SCANCODE_ESCAPE {
                    r.aimbot.key == c.aimbot.key
                } else {
                    r.aimbot.key.code == k && !r.aimbot.key.is_mouse_button && r.aimbot.key.use_key == c.aimbot.key.use_key
                },
                Input::MouseButton(b) => r.aimbot.key.code == b && r.aimbot.key.is_mouse_button
                    && r.aimbot.key.use_key == c.aimbot.key.use_key,
                Input::NoInput => r.aimbot.key == c.aimbot.key,
            }
        }),
{
}

} // verus!
