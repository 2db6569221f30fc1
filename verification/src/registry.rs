//! The rebindings that a process has registered.

use vstd::prelude::*;
use vstd::utf8::encode_utf8;

verus! {

/// One interception: calls of `name` are to reach `replacement`.
#[derive(Clone, Debug)]
pub struct Rebinding {
    /// Name of the symbol as programs write it, without the underscore that
    /// the symbol table puts before it.
    pub name: String,
    /// Address of the function that takes the symbol's place.
    pub replacement: u64,
    /// The caller's slot for the address that a rewrite displaces: `None`
    /// where the caller has provided no slot, else what the slot holds.
    pub original: Option<u64>,
}

impl Rebinding {
    /// The bytes of the name.
    pub open spec fn name_bytes(&self) -> Seq<u8> {
        encode_utf8(self.name@)
    }
}

/// The rebindings of a process, and whether the loader has been told to call
/// back for every image.
pub struct Registry {
    /// The rebindings, in the order in which they were registered.
    pub bindings: Vec<Rebinding>,
    /// Whether the callback has been installed.
    pub installed: bool,
}

impl Registry {
    /// A registry that holds nothing, with no callback installed.
    pub fn new() -> (r: Registry)
        ensures
            r.bindings@.len() == 0,
            !r.installed,
    {
        Registry { bindings: Vec::new(), installed: false }
    }
}

/// Stores `bindings` in place of what the registry held, and tells whether
/// the callback has to be installed with the loader now: it has to the first
/// time, and never again.
pub fn register(registry: &mut Registry, bindings: Vec<Rebinding>) -> (install: bool)
    ensures
        final(registry).bindings == bindings,
        final(registry).installed,
        install == !old(registry).installed,
{
    let install = !registry.installed;
    registry.bindings = bindings;
    registry.installed = true;
    install
}

/// The first rebinding whose name is `symbol`, among those before `upto`.
pub open spec fn first_match_before(bindings: Seq<Rebinding>, symbol: Seq<u8>, upto: int) -> Option<
    int,
>
    decreases upto,
{
    if upto <= 0 {
        None
    } else {
        match first_match_before(bindings, symbol, upto - 1) {
            Some(i) => Some(i),
            None => if bindings[upto - 1].name_bytes() == symbol {
                Some(upto - 1)
            } else {
                None
            },
        }
    }
}

/// The first rebinding whose name is `symbol`: where several rebindings
/// carry one name, the one registered first applies.
pub open spec fn first_match(bindings: Seq<Rebinding>, symbol: Seq<u8>) -> Option<int> {
    first_match_before(bindings, symbol, bindings.len() as int)
}

/// What `first_match_before` finds: a rebinding of that name before which
/// none has it, or nothing if none has it.
pub proof fn first_match_is_the_first(bindings: Seq<Rebinding>, symbol: Seq<u8>, upto: int)
    requires
        0 <= upto <= bindings.len(),
    ensures
        match first_match_before(bindings, symbol, upto) {
            Some(i) => 0 <= i < upto && bindings[i].name_bytes() == symbol && forall|j: int|
                0 <= j < i ==> bindings[j].name_bytes() != symbol,
            None => forall|j: int| 0 <= j < upto ==> bindings[j].name_bytes() != symbol,
        },
    decreases upto,
{
    if upto > 0 {
        first_match_is_the_first(bindings, symbol, upto - 1);
    }
}

/// Once a rebinding of that name is found, looking further finds the same.
proof fn lemma_first_match_stable(
    bindings: Seq<Rebinding>,
    symbol: Seq<u8>,
    found: int,
    upto: int,
)
    requires
        0 <= found < upto <= bindings.len(),
        first_match_before(bindings, symbol, found + 1) == Some(found),
    ensures
        first_match_before(bindings, symbol, upto) == Some(found),
    decreases upto,
{
    if upto > found + 1 {
        lemma_first_match_stable(bindings, symbol, found, upto - 1);
    }
}

/// Whether two byte strings are equal.
pub fn bytes_equal(a: &[u8], b: &[u8]) -> (r: bool)
    ensures
        r == (a@ == b@),
{
    if a.len() != b.len() {
        return false;
    }
    let mut i: usize = 0;
    while i < a.len()
        invariant
            a@.len() == b@.len(),
            forall|j: int| 0 <= j < i ==> a@[j] == b@[j],
        decreases a.len() - i,
    {
        if a[i] != b[i] {
            return false;
        }
        i += 1;
    }
    assert(a@ =~= b@);
    true
}

/// Looks a symbol up among the rebindings, in the order of registration.
pub fn find_binding(bindings: &Vec<Rebinding>, symbol: &[u8]) -> (r: Option<usize>)
    ensures
        r matches Some(i) ==> i < bindings@.len() && first_match(bindings@, symbol@) == Some(
            i as int,
        ),
        r is None ==> first_match(bindings@, symbol@) is None,
{
    let mut i: usize = 0;
    while i < bindings.len()
        invariant
            i <= bindings@.len(),
            first_match_before(bindings@, symbol@, i as int) is None,
        decreases bindings.len() - i,
    {
        if bytes_equal(bindings[i].name.as_str().as_bytes(), symbol) {
            proof {
                lemma_first_match_stable(bindings@, symbol@, i as int, bindings@.len() as int);
            }
            return Some(i);
        }
        i += 1;
    }
    None
}

} // verus!
