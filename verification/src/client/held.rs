//! Keys and buttons that are down on the remote.

use crate::msg::client::ClientMsg;
use vstd::prelude::*;

verus! {

/// Codes in order, each once.
pub open spec fn in_order(codes: Seq<u32>) -> bool {
    forall|i: int, j: int| 0 <= i < j < codes.len() ==> codes[i] < codes[j]
}

/// Keys and buttons pressed on the remote, so all of them can be released
/// when the local window loses the keyboard.
#[derive(Debug, Clone)]
pub struct Held {
    pub keys: Vec<u32>,
    pub buttons: Vec<u32>,
}

/// Where a code stands, or would.
fn place(codes: &Vec<u32>, code: u32) -> (at: usize)
    requires
        in_order(codes@),
    ensures
        at <= codes@.len(),
        forall|i: int| 0 <= i < at ==> codes@[i] < code,
        forall|i: int| at <= i < codes@.len() ==> codes@[i] >= code,
{
    let mut at: usize = 0;
    let n: usize = codes.len();
    while at < n && codes[at] < code
        invariant
            at <= n == codes@.len(),
            forall|i: int| 0 <= i < at ==> codes@[i] < code,
        decreases n - at,
    {
        at = at + 1;
    }
    at
}

/// Presses or releases a code. False when nothing changed: a press of one
/// already down (auto-repeat, which the remote does itself) or a release of
/// one that is not down.
fn turn(codes: &mut Vec<u32>, code: u32, pressed: bool) -> (changed: bool)
    requires
        in_order(old(codes)@),
    ensures
        in_order(final(codes)@),
        changed == (old(codes)@.contains(code) != pressed),
        forall|c: u32| #[trigger] final(codes)@.contains(c) <==> if c == code {
            pressed
        } else {
            old(codes)@.contains(c)
        },
{
    let at: usize = place(codes, code);
    let ghost before = codes@;
    let down: bool = at < codes.len() && codes[at] == code;
    proof {
        if before.contains(code) {
            let i = choose|i: int| 0 <= i < before.len() && before[i] == code;
            assert(i >= at);
            assert(i == at || before[at as int] < before[i]);
        }
        assert(down == before.contains(code));
    }
    if pressed && !down {
        codes.insert(at, code);
        proof {
            assert(codes@ =~= before.insert(at as int, code));
            assert forall|i: int, j: int| 0 <= i < j < codes@.len() implies codes@[i] < codes@[j] by {
                if j < at {
                } else if j == at {
                } else if i == at {
                    assert(codes@[j] == before[j - 1]);
                    assert(before[j - 1] >= code && before[j - 1] != code);
                } else if i < at {
                    assert(codes@[j] == before[j - 1]);
                    assert(before[i] < before[j - 1]);
                } else {
                    assert(before[i - 1] < before[j - 1]);
                }
            }
            assert forall|c: u32| #[trigger] codes@.contains(c) <==> (c == code || before.contains(c)) by {
                if before.contains(c) {
                    let i = choose|i: int| 0 <= i < before.len() && before[i] == c;
                    if i < at {
                        assert(codes@[i] == c);
                    } else {
                        assert(codes@[i + 1] == c);
                    }
                }
                assert(codes@[at as int] == code);
                if codes@.contains(c) {
                    let i = choose|i: int| 0 <= i < codes@.len() && codes@[i] == c;
                    if i < at {
                        assert(before[i] == c);
                    } else if i > at {
                        assert(before[i - 1] == c);
                    }
                }
            }
        }
        return true;
    }
    if !pressed && down {
        codes.remove(at);
        proof {
            assert(codes@ =~= before.remove(at as int));
            assert forall|c: u32| #[trigger] codes@.contains(c) <==> (c != code && before.contains(c)) by {
                if before.contains(c) && c != code {
                    let i = choose|i: int| 0 <= i < before.len() && before[i] == c;
                    if i < at {
                        assert(codes@[i] == c);
                    } else {
                        assert(codes@[i - 1] == c);
                    }
                }
                if codes@.contains(c) {
                    let i = choose|i: int| 0 <= i < codes@.len() && codes@[i] == c;
                    if i < at {
                        assert(before[i] == c);
                    } else {
                        assert(before[i + 1] == c);
                        assert(before[at as int] < before[i + 1]);
                    }
                }
            }
        }
        return true;
    }
    false
}

impl Default for Held {
    fn default() -> (h: Held)
        ensures
            h.wf(),
            h.keys@.len() == 0,
            h.buttons@.len() == 0,
    {
        Held { keys: Vec::new(), buttons: Vec::new() }
    }
}

impl Held {
    pub open spec fn wf(&self) -> bool {
        in_order(self.keys@) && in_order(self.buttons@)
    }

    /// Press or release a key: the message to send, unless nothing changed.
    pub fn key(&mut self, keycode: u32, pressed: bool) -> (msg: Option<ClientMsg>)
        requires
            old(self).wf(),
        ensures
            final(self).wf(),
            final(self).buttons == old(self).buttons,
            forall|c: u32| #[trigger] final(self).keys@.contains(c) <==> if c == keycode {
                pressed
            } else {
                old(self).keys@.contains(c)
            },
            msg == if old(self).keys@.contains(keycode) != pressed {
                Some(ClientMsg::Key { keycode, pressed })
            } else {
                None
            },
    {
        if turn(&mut self.keys, keycode, pressed) {
            Some(ClientMsg::Key { keycode, pressed })
        } else {
            None
        }
    }

    /// Press or release a pointer button, in the same way.
    pub fn button(&mut self, button: u32, pressed: bool) -> (msg: Option<ClientMsg>)
        requires
            old(self).wf(),
        ensures
            final(self).wf(),
            final(self).keys == old(self).keys,
            forall|c: u32| #[trigger] final(self).buttons@.contains(c) <==> if c == button {
                pressed
            } else {
                old(self).buttons@.contains(c)
            },
            msg == if old(self).buttons@.contains(button) != pressed {
                Some(ClientMsg::PointerButton { button, pressed })
            } else {
                None
            },
    {
        if turn(&mut self.buttons, button, pressed) {
            Some(ClientMsg::PointerButton { button, pressed })
        } else {
            None
        }
    }

    /// Release every key and button that is down, keys first, each in the
    /// order of its codes.
    pub fn release_all(&mut self) -> (msgs: Vec<ClientMsg>)
        requires
            old(self).wf(),
        ensures
            final(self).wf(),
            final(self).keys@.len() == 0,
            final(self).buttons@.len() == 0,
            msgs@.len() == old(self).keys@.len() + old(self).buttons@.len(),
            forall|i: int|
                0 <= i < old(self).keys@.len() ==> #[trigger] msgs@[i] == (ClientMsg::Key {
                    keycode: old(self).keys@[i],
                    pressed: false,
                }),
            forall|i: int|
                old(self).keys@.len() <= i < msgs@.len() ==> #[trigger] msgs@[i] == (ClientMsg::PointerButton {
                    button: old(self).buttons@[i - old(self).keys@.len()],
                    pressed: false,
                }),
    {
        let mut msgs: Vec<ClientMsg> = Vec::new();
        let n: usize = self.keys.len();
        for i in 0..n
            invariant
                *self == *old(self),
                n == self.keys@.len(),
                msgs@.len() == i,
                forall|k: int|
                    0 <= k < i ==> #[trigger] msgs@[k] == (ClientMsg::Key { keycode: self.keys@[k], pressed: false }),
        {
            msgs.push(ClientMsg::Key { keycode: self.keys[i], pressed: false });
        }
        let m: usize = self.buttons.len();
        for i in 0..m
            invariant
                *self == *old(self),
                n == self.keys@.len(),
                m == self.buttons@.len(),
                msgs@.len() == n + i,
                forall|k: int|
                    0 <= k < n ==> #[trigger] msgs@[k] == (ClientMsg::Key { keycode: self.keys@[k], pressed: false }),
                forall|k: int|
                    n <= k < n + i ==> #[trigger] msgs@[k] == (ClientMsg::PointerButton {
                        button: self.buttons@[k - n],
                        pressed: false,
                    }),
        {
            msgs.push(ClientMsg::PointerButton { button: self.buttons[i], pressed: false });
        }
        self.keys = Vec::new();
        self.buttons = Vec::new();
        msgs
    }
}

} // verus!
