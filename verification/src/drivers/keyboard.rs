//! The keyboard: a small ring of decoded characters between the
//! interrupt that fills it and the event loop that drains it.

use vstd::prelude::*;

verus! {

/// Slots in the ring. One slot stays free, so the ring holds one key less.
pub const RING_SIZE: usize = 16;

/// The most keys that wait at a time.
pub const KEY_CAPACITY: usize = 15;

/// The keyboard's queue of keys.
pub struct Keyboard {
    buffer: [char; 16],
    read_pos: usize,
    write_pos: usize,
    initialized: bool,
}

/// How many keys wait between the two positions of the ring.
pub open spec fn waiting(read_pos: int, write_pos: int) -> int {
    if write_pos >= read_pos {
        write_pos - read_pos
    } else {
        write_pos + RING_SIZE - read_pos
    }
}

impl View for Keyboard {
    type V = Seq<char>;

    /// The keys that wait, the oldest first.
    closed spec fn view(&self) -> Seq<char> {
        Seq::new(
            waiting(self.read_pos as int, self.write_pos as int) as nat,
            |i: int| self.buffer@[(self.read_pos + i) % (RING_SIZE as int)],
        )
    }
}

impl Keyboard {
    /// Both positions lie within the ring.
    pub closed spec fn wf(&self) -> bool {
        self.read_pos < RING_SIZE && self.write_pos < RING_SIZE
    }

    /// Whether [`Keyboard::init`] has run.
    pub closed spec fn ready(&self) -> bool {
        self.initialized
    }

    /// A keyboard with no key waiting.
    pub fn new() -> (k: Keyboard)
        ensures
            k.wf(),
            !k.ready(),
            k@ == Seq::<char>::empty(),
    {
        let k = Keyboard { buffer: ['\0'; 16], read_pos: 0, write_pos: 0, initialized: false };
        proof {
            assert(k@ =~= Seq::<char>::empty());
        }
        k
    }

    /// Marks the keyboard as set up. The keys that wait stay.
    pub fn init(&mut self)
        requires
            old(self).wf(),
        ensures
            final(self).wf(),
            final(self).ready(),
            final(self)@ == old(self)@,
    {
        if self.initialized {
            return ;
        }
        self.initialized = true;
    }

    /// Takes the oldest key that waits.
    pub fn read_key(&mut self) -> (r: Option<char>)
        requires
            old(self).wf(),
        ensures
            final(self).wf(),
            final(self).ready() == old(self).ready(),
            old(self)@.len() == 0 ==> r.is_none() && final(self)@ == old(self)@,
            old(self)@.len() > 0 ==> r == Some(old(self)@[0]) && final(self)@ == old(
                self,
            )@.drop_first(),
    {
        if self.read_pos != self.write_pos {
            let key = self.buffer[self.read_pos];
            let ghost before = self@;
            let ghost start = self.read_pos;
            self.read_pos = (self.read_pos + 1) % RING_SIZE;
            proof {
                assert(before[0] == key);
                assert forall|i: int| 0 <= i < self@.len() implies self@[i] == before[i + 1] by {
                    assert((self.read_pos + i) % 16 == (start + (i + 1)) % 16);
                }
                assert(self@ =~= before.drop_first());
            }
            Some(key)
        } else {
            None
        }
    }

    /// Puts a key at the end of the queue. A key that comes while
    /// [`KEY_CAPACITY`] keys wait is dropped.
    pub fn push_key(&mut self, key: char)
        requires
            old(self).wf(),
        ensures
            final(self).wf(),
            final(self).ready() == old(self).ready(),
            final(self)@ == if old(self)@.len() < KEY_CAPACITY {
                old(self)@.push(key)
            } else {
                old(self)@
            },
    {
        let next_write = (self.write_pos + 1) % RING_SIZE;
        if next_write != self.read_pos {
            let ghost before = self@;
            let ghost ring = self.buffer@;
            let ghost at = self.write_pos;
            self.buffer[self.write_pos] = key;
            self.write_pos = next_write;
            proof {
                assert(self.buffer@ == ring.update(at as int, key));
                assert forall|i: int| 0 <= i < before.len() implies self@[i] == before[i] by {
                    assert((self.read_pos + i) % 16 != at);
                }
                assert(self@[before.len() as int] == key) by {
                    assert((self.read_pos + before.len()) % 16 == at);
                }
                assert(self@ =~= before.push(key));
            }
        }
    }

    /// How many keys wait.
    pub fn pending(&self) -> (n: usize)
        requires
            self.wf(),
        ensures
            n == self@.len(),
            n <= KEY_CAPACITY,
    {
        if self.write_pos >= self.read_pos {
            self.write_pos - self.read_pos
        } else {
            self.write_pos + RING_SIZE - self.read_pos
        }
    }
}

} // verus!
