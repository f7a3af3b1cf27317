//! Hotkey names: the table that turns a key name written in the ini (`F10`,
//! `Insert`) into its virtual-key code. The table itself is handed in by the
//! caller; a name matches ignoring ASCII case, the first entry winning.

use vstd::prelude::*;
use vstd::utf8::*;

use crate::text::{eq_ic, eq_ic_exec};

verus! {

pub open spec fn keys_view(t: Seq<(String, u16)>) -> Seq<(Seq<u8>, u16)> {
    t.map_values(|p: (String, u16)| (encode_utf8(p.0@), p.1))
}

/// The code of the first entry named `name`, ignoring ASCII case.
pub open spec fn vk_lookup(t: Seq<(Seq<u8>, u16)>, name: Seq<u8>) -> Option<u16>
    decreases t.len(),
{
    if t.len() == 0 {
        None
    } else if eq_ic(t[0].0, name) {
        Some(t[0].1)
    } else {
        vk_lookup(t.skip(1), name)
    }
}

/// The virtual-key code a key name stands for in `table`.
pub fn vk_from_name(table: &[(String, u16)], name: &[u8]) -> (r: Option<u16>)
    ensures
        r == vk_lookup(keys_view(table@), name@),
{
    let ghost kv = keys_view(table@);
    let mut i: usize = 0;
    assert(kv.skip(0) =~= kv);
    while i < table.len()
        invariant
            0 <= i <= table@.len(),
            kv == keys_view(table@),
            kv.len() == table@.len(),
            vk_lookup(kv, name@) == vk_lookup(kv.skip(i as int), name@),
        decreases table@.len() - i,
    {
        let s = table[i].0.as_str();
        proof {
            assert(kv.skip(i as int)[0] == kv[i as int]);
            assert(kv[i as int] == (encode_utf8(table@[i as int].0@), table@[i as int].1));
            assert(kv.skip(i as int).skip(1) =~= kv.skip(i + 1));
            assert(s@ == table@[i as int].0@);
        }
        if eq_ic_exec(s.as_bytes(), name) {
            return Some(table[i].1);
        }
        i = i + 1;
    }
    None
}

} // verus!
