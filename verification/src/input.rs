use vstd::prelude::*;

verus! {

// ============================================================
// Masked entry of the core password
// ============================================================

/// What masked entry does with one byte read from the terminal.
#[derive(Clone, Copy, Debug, PartialEq, Eq, Structural)]
pub enum KeyAction {
    /// End of input (line feed or carriage return): print a line break and stop.
    Finish,
    /// Backspace or delete with a non-empty entry: drop the last character and erase one
    /// mask character on the terminal.
    Erase,
    /// A printable byte: append it as a character and print one mask character.
    Append(char),
    /// Anything else: no change.
    Ignore,
}

pub open spec fn key_action(byte: u8, entry_empty: bool) -> KeyAction {
    if byte == 10 || byte == 13 {
        KeyAction::Finish
    } else if byte == 127 || byte == 8 {
        if entry_empty {
            KeyAction::Ignore
        } else {
            KeyAction::Erase
        }
    } else if byte >= 0x20 {
        KeyAction::Append(byte as char)
    } else {
        KeyAction::Ignore
    }
}

/// Decides what to do with `byte` during masked entry, given whether the entry so far is
/// empty.
pub fn masked_key_action(byte: u8, entry_empty: bool) -> (a: KeyAction)
    ensures
        a == key_action(byte, entry_empty),
{
    if byte == 10 || byte == 13 {
        KeyAction::Finish
    } else if byte == 127 || byte == 8 {
        if entry_empty {
            KeyAction::Ignore
        } else {
            KeyAction::Erase
        }
    } else if byte >= 0x20 {
        KeyAction::Append(byte as char)
    } else {
        KeyAction::Ignore
    }
}

/// The entry after `byte` is read: one character fewer on an erase, one more on a
/// printable byte, unchanged otherwise (also on the byte that finishes the entry).
pub open spec fn entry_after(entry: Seq<char>, byte: u8) -> Seq<char> {
    match key_action(byte, entry.len() == 0) {
        KeyAction::Erase => entry.drop_last(),
        KeyAction::Append(c) => entry.push(c),
        _ => entry,
    }
}

/// One step of masked entry: updates the entry for `byte` and returns what the terminal
/// should show (`KeyAction`).
pub fn masked_entry_step(entry: &mut Vec<char>, byte: u8) -> (a: KeyAction)
    ensures
        a == key_action(byte, old(entry)@.len() == 0),
        final(entry)@ == entry_after(old(entry)@, byte),
{
    let a = masked_key_action(byte, entry.len() == 0);
    match a {
        KeyAction::Erase => {
            entry.pop();
        },
        KeyAction::Append(c) => {
            entry.push(c);
        },
        _ => {},
    }
    a
}

/// Erasing right after typing a printable character gives back the entry as it was.
pub proof fn lemma_erase_undoes_append(entry: Seq<char>, byte: u8, erase: u8)
    requires
        byte >= 0x20,
        byte != 127,
        erase == 127 || erase == 8,
    ensures
        entry_after(entry_after(entry, byte), erase) == entry,
{
    let e1 = entry.push(byte as char);
    assert(entry_after(entry, byte) == e1);
    assert(e1.drop_last() =~= entry);
}

} // verus!
