//! The mode heuristic: a file whose name carries the encoder's own
//! extension is taken as already encoded, so a pass over it decodes.

use vstd::prelude::*;

verus! {

/// Whether a file name ends in the transcoder's extension `.uguu`,
/// with at least one character of stem before the dot.
pub open spec fn has_uguu_extension(name: Seq<char>) -> bool {
    &&& name.len() >= 6
    &&& name[name.len() - 5] == '.'
    &&& name[name.len() - 4] == 'u'
    &&& name[name.len() - 3] == 'g'
    &&& name[name.len() - 2] == 'u'
    &&& name[name.len() - 1] == 'u'
}

/// Classify a file name: true when it carries the `.uguu` extension and
/// its contents are therefore taken as an encoded symbol stream.
pub fn uguuuu(name: &Vec<char>) -> (r: bool)
    ensures
        r == has_uguu_extension(name@),
{
    let n = name.len();
    if n < 6 {
        return false;
    }
    name[n - 5] == '.' && name[n - 4] == 'u' && name[n - 3] == 'g' && name[n - 2] == 'u' && name[n
        - 1] == 'u'
}

} // verus!
