//! The scripts being run by the third emulator and their variables.

use vstd::prelude::*;
use crate::emulator2::record::{entries_map, first_entry, lemma_first_entry, lemma_push_new_entry, lemma_update_first_entry};
use crate::schema::Script;

verus! {

/// The scripts being run (each with its next step), a frame of local
/// variables per script, the global variables, and the open loops.
pub struct ScriptMgr<'a> {
    pub program_counters: Vec<(u32, &'a Script)>,
    pub variables: Vec<Vec<(String, String)>>,
    pub globals: Vec<(String, String)>,
    pub loop_stack: Vec<u32>,
}

/// The variables of the innermost frame, by name (the first entry for a
/// name counts).
pub open spec fn frame_vars(frames: Seq<Vec<(String, String)>>) -> Map<Seq<char>, Seq<char>> {
    entries_map(frames.last()@)
}

impl<'a> ScriptMgr<'a> {
    /// No script running and no variables.
    pub fn new() -> (r: Self)
        ensures
            r.program_counters@.len() == 0,
            r.variables@.len() == 0,
            r.globals@.len() == 0,
            r.loop_stack@.len() == 0,
    {
        ScriptMgr { program_counters: Vec::new(), variables: Vec::new(), globals: Vec::new(), loop_stack: Vec::new() }
    }

    /// The value of variable `name` in the innermost frame.
    pub fn get_var(&self, name: &str) -> (r: Option<String>)
        requires
            self.variables@.len() > 0,
        ensures
            match r {
                Some(v) => frame_vars(self.variables@).contains_key(name@) && v@ == frame_vars(self.variables@)[name@],
                None => !frame_vars(self.variables@).contains_key(name@),
            },
    {
        let frame = &self.variables[self.variables.len() - 1];
        proof {
            lemma_first_entry(frame@, name@);
        }
        match find_var(frame, name) {
            Some(i) => Some(frame[i].1.clone()),
            None => None,
        }
    }

    /// Sets variable `name` of the innermost frame: the first entry with that
    /// name gets the new value in place, or, where the frame has none, the
    /// pair is appended at the end of the frame.
    pub fn set_var(&mut self, name: &str, value: String)
        requires
            old(self).variables@.len() > 0,
        ensures
            final(self).program_counters == old(self).program_counters,
            final(self).globals == old(self).globals,
            final(self).loop_stack == old(self).loop_stack,
            final(self).variables@.len() == old(self).variables@.len(),
            final(self).variables@.drop_last() == old(self).variables@.drop_last(),
            frame_vars(final(self).variables@) == frame_vars(old(self).variables@).insert(name@, value@),
            match first_entry(old(self).variables@.last()@, name@) {
                Some(i) => final(self).variables@.last()@ == old(self).variables@.last()@.update(
                    i,
                    (old(self).variables@.last()@[i].0, value),
                ),
                None => {
                    &&& final(self).variables@.last()@.drop_last() == old(self).variables@.last()@
                    &&& final(self).variables@.last()@.len() == old(self).variables@.last()@.len() + 1
                    &&& final(self).variables@.last()@.last().0@ == name@
                    &&& final(self).variables@.last()@.last().1 == value
                },
            },
    {
        let last = self.variables.len() - 1;
        let mut frame = self.variables.remove(last);
        proof {
            lemma_first_entry(frame@, name@);
        }
        let ghost before = frame@;
        match find_var(&frame, name) {
            Some(i) => {
                let (n, _) = frame.remove(i);
                let ghost v = value;
                frame.insert(i, (n, value));
                proof {
                    assert(frame@ =~= before.update(i as int, (before[i as int].0, v)));
                    lemma_update_first_entry(before, name@, v);
                }
            },
            None => {
                let n = name.to_owned();
                let ghost e = (n, value);
                frame.push((n, value));
                proof {
                    lemma_push_new_entry(before, e);
                    assert(frame@.drop_last() =~= before);
                }
            },
        }
        self.variables.push(frame);
        proof {
            assert(self.variables@.drop_last() =~= old(self).variables@.drop_last());
        }
    }
}

/// The position of the first variable named `name`.
fn find_var(frame: &Vec<(String, String)>, name: &str) -> (r: Option<usize>)
    ensures
        match r {
            Some(i) => first_entry(frame@, name@) == Some(i as int),
            None => first_entry(frame@, name@) is None,
        },
{
    let target = name.to_owned();
    proof {
        lemma_first_entry(frame@, name@);
    }
    let mut i: usize = 0;
    while i < frame.len()
        invariant
            i <= frame@.len(),
            target@ == name@,
            forall|j: int| 0 <= j < i ==> (#[trigger] frame@[j]).0@ != name@,
            first_entry(frame@, name@) matches Some(k) ==> 0 <= k < frame@.len() && frame@[k].0@ == name@
                && forall|j: int| 0 <= j < k ==> (#[trigger] frame@[j]).0@ != name@,
            first_entry(frame@, name@) is None ==> forall|j: int|
                0 <= j < frame@.len() ==> (#[trigger] frame@[j]).0@ != name@,
        decreases frame.len() - i,
    {
        if frame[i].0 == target {
            return Some(i);
        }
        i = i + 1;
    }
    None
}

/// Reading a variable after setting it gives the value set; the other
/// variables of the frame keep their values.
pub proof fn lemma_get_after_set(before: Seq<Vec<(String, String)>>, after: Seq<Vec<(String, String)>>, name: Seq<char>, value: Seq<char>, other: Seq<char>)
    requires
        before.len() > 0,
        frame_vars(after) == frame_vars(before).insert(name, value),
        other != name,
    ensures
        frame_vars(after).contains_key(name),
        frame_vars(after)[name] == value,
        frame_vars(after).contains_key(other) == frame_vars(before).contains_key(other),
        frame_vars(before).contains_key(other) ==> frame_vars(after)[other] == frame_vars(before)[other],
{
}

} // verus!
