use vstd::prelude::*;
use crate::stereo_line::Param;

verus! {

/// The parameter that a control address names.
#[derive(Clone, Copy, Debug, PartialEq, Eq)]
pub enum ControlName {
    Feedback,
    Record,
    Input,
    Output,
    Clear,
    Pan,
}

/// The ASCII bytes of each recognised parameter name.
pub open spec fn word(name: ControlName) -> Seq<u8> {
    match name {
        // "feedback"
        ControlName::Feedback => seq![102u8, 101, 101, 100, 98, 97, 99, 107],
        // "record"
        ControlName::Record => seq![114u8, 101, 99, 111, 114, 100],
        // "input"
        ControlName::Input => seq![105u8, 110, 112, 117, 116],
        // "output"
        ControlName::Output => seq![111u8, 117, 116, 112, 117, 116],
        // "clear"
        ControlName::Clear => seq![99u8, 108, 101, 97, 114],
        // "pan"
        ControlName::Pan => seq![112u8, 97, 110],
    }
}

/// The line that an address segment selects: the digits `1` to `6` select
/// lines 0 to 5, anything else line 0.
pub open spec fn line_of(seg: Seq<u8>) -> usize {
    if seg.len() == 1 && 49 <= seg[0] <= 54 {
        (seg[0] - 49) as usize
    } else {
        0
    }
}

/// The parameter that an address segment names, if any.
pub open spec fn name_of(seg: Seq<u8>) -> Option<ControlName> {
    if seg == word(ControlName::Feedback) {
        Some(ControlName::Feedback)
    } else if seg == word(ControlName::Record) {
        Some(ControlName::Record)
    } else if seg == word(ControlName::Input) {
        Some(ControlName::Input)
    } else if seg == word(ControlName::Output) {
        Some(ControlName::Output)
    } else if seg == word(ControlName::Clear) {
        Some(ControlName::Clear)
    } else if seg == word(ControlName::Pan) {
        Some(ControlName::Pan)
    } else {
        None
    }
}

/// The update that a named control asks for. A record press clears the
/// line; its release sets the loop length to the samples recorded meanwhile.
pub open spec fn param_of(name: ControlName, value: i32, pressed: bool, recorded: usize) -> Param {
    match name {
        ControlName::Feedback => Param::Feedback(value),
        ControlName::Record => if pressed { Param::Clear } else { Param::Time(recorded) },
        ControlName::Input => Param::Input(value),
        ControlName::Output => Param::Output(value),
        ControlName::Clear => Param::Clear,
        ControlName::Pan => Param::Pan(value),
    }
}

fn same_bytes(a: &[u8], b: &[u8]) -> (r: bool)
    ensures
        r == (a@ == b@),
{
    if a.len() != b.len() {
        return false;
    }
    let mut i: usize = 0;
    while i < a.len()
        invariant
            a@.len() == b@.len(),
            i <= a@.len(),
            forall|k: int| 0 <= k < i ==> a@[k] == b@[k],
        decreases a@.len() - i,
    {
        if a[i] != b[i] {
            return false;
        }
        i = i + 1;
    }
    assert(a@ =~= b@);
    true
}

/// `p` is the first `/` of an address after its leading byte.
pub open spec fn first_slash(a: Seq<u8>, p: int) -> bool {
    &&& 1 <= p < a.len()
    &&& a[p] == 47
    &&& forall|q: int| 1 <= q < p ==> a[q] != 47
}

/// Resolves an address of the form `/<line>/<name>`: the leading byte is
/// skipped, the text up to the next `/` selects the line and the rest names
/// the parameter. An address without a further `/`, or with an unknown name,
/// resolves to nothing.
pub fn resolve_address(a: &[u8]) -> (r: Option<(usize, ControlName)>)
    ensures
        match r {
            Some((line, name)) => exists|p: int| #[trigger] first_slash(a@, p)
                && line == line_of(a@.subrange(1, p))
                && name_of(a@.subrange(p + 1, a@.len() as int)) == Some(name),
            None => forall|p: int| #[trigger] first_slash(a@, p)
                ==> name_of(a@.subrange(p + 1, a@.len() as int)) is None,
        },
{
    let n = a.len();
    let mut p: usize = 1;
    while p < n && a[p] != 47
        invariant
            1 <= p,
            n == a@.len(),
            forall|q: int| 1 <= q < p && q < n ==> a@[q] != 47,
        decreases n - p,
    {
        p = p + 1;
    }
    if p >= n {
        return None;
    }
    assert(first_slash(a@, p as int));
    assert forall|q: int| #[trigger] first_slash(a@, q) implies q == p by {
        if q < p {
            assert(a@[q] != 47);
        } else if q > p {
            assert(a@[p as int] != 47);
        }
    }
    let line = line_index(&a[1..p]);
    match control_name(&a[p + 1..n]) {
        Some(name) => Some((line, name)),
        None => None,
    }
}

/// Reads the line segment of a control address.
pub fn line_index(seg: &[u8]) -> (r: usize)
    ensures
        r == line_of(seg@),
{
    if seg.len() == 1 && 49 <= seg[0] && seg[0] <= 54 {
        (seg[0] - 49) as usize
    } else {
        0
    }
}

/// Reads the parameter segment of a control address.
pub fn control_name(seg: &[u8]) -> (r: Option<ControlName>)
    ensures
        r == name_of(seg@),
{
    let names = [
        ControlName::Feedback,
        ControlName::Record,
        ControlName::Input,
        ControlName::Output,
        ControlName::Clear,
        ControlName::Pan,
    ];
    let words: [Vec<u8>; 6] = [
        vec![102u8, 101, 101, 100, 98, 97, 99, 107],
        vec![114u8, 101, 99, 111, 114, 100],
        vec![105u8, 110, 112, 117, 116],
        vec![111u8, 117, 116, 112, 117, 116],
        vec![99u8, 108, 101, 97, 114],
        vec![112u8, 97, 110],
    ];
    let mut i: usize = 0;
    while i < 6
        invariant
            i <= 6,
            forall|k: int| 0 <= k < 6 ==> #[trigger] words@[k]@ == word(names@[k]),
            forall|k: int| 0 <= k < i ==> seg@ != word(#[trigger] names@[k]),
        decreases 6 - i,
    {
        if same_bytes(seg, words[i].as_slice()) {
            return Some(names[i]);
        }
        i = i + 1;
    }
    None
}

/// The update that a named control asks for.
pub fn control_param(name: ControlName, value: i32, pressed: bool, recorded: usize) -> (r: Param)
    ensures
        r == param_of(name, value, pressed, recorded),
{
    match name {
        ControlName::Feedback => Param::Feedback(value),
        ControlName::Record => if pressed {
            Param::Clear
        } else {
            Param::Time(recorded)
        },
        ControlName::Input => Param::Input(value),
        ControlName::Output => Param::Output(value),
        ControlName::Clear => Param::Clear,
        ControlName::Pan => Param::Pan(value),
    }
}

} // verus!
