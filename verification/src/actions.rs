//! What the `HEYA` and `MPOP` actions answer: their decisions on the arguments, the server
//! state and the outcome of each pop, as protocol elements for the connection to write.
use vstd::prelude::*;

verus! {

/// One element of a response.
#[derive(Debug, PartialEq)]
pub enum Element {
    /// The action was called with the wrong number of arguments
    ActionErr,
    /// The server cannot serve the request
    ServerErr,
    /// The greeting `HEY!`
    Heya,
    /// A string, as the bytes stored or sent
    Str(Vec<u8>),
    /// No value
    Nil,
    /// A stored value could not be encoded for the client
    EncodingErr,
    /// An array of this many elements follows
    ArrayLength(usize),
}

/// What popping one key gave.
pub enum PopOutcome {
    /// The key was there, with this value, and is gone now
    Popped(Vec<u8>),
    /// The key was not there
    Missing,
    /// The value could not be encoded for the client
    EncodingError,
}

/// The answer to `HEYA` with the arguments `args`: the greeting with none, the argument
/// echoed with one, an action error with more.
pub fn heya(args: &Vec<Vec<u8>>) -> (r: Element)
    ensures
        args@.len() > 1 ==> r == Element::ActionErr,
        args@.len() == 1 ==> (r matches Element::Str(b) && b@ == args@[0]@),
        args@.len() == 0 ==> r == Element::Heya,
{
    if args.len() > 1 {
        Element::ActionErr
    } else if args.len() == 1 {
        let mut b: Vec<u8> = Vec::new();
        let a = &args[0];
        let mut i: usize = 0;
        while i < a.len()
            invariant
                i <= a@.len(),
                b@ == a@.subrange(0, i as int),
            decreases a@.len() - i,
        {
            b.push(a[i]);
            i = i + 1;
            assert(b@ =~= a@.subrange(0, i as int));
        }
        assert(b@ =~= a@);
        Element::Str(b)
    } else {
        Element::Heya
    }
}

/// The first element of the answer to `MPOP` of `nkeys` keys while the server state is
/// `state_okay`: an action error without keys, a server error while the server is in
/// trouble (and nothing is popped), else the length of the array of popped values.
pub fn mpop_header(nkeys: usize, state_okay: bool) -> (r: Element)
    ensures
        nkeys == 0 ==> r == Element::ActionErr,
        nkeys > 0 && !state_okay ==> r == Element::ServerErr,
        nkeys > 0 && state_okay ==> r == Element::ArrayLength(nkeys),
{
    if nkeys == 0 {
        Element::ActionErr
    } else if state_okay {
        Element::ArrayLength(nkeys)
    } else {
        Element::ServerErr
    }
}

/// The array element for one key of `MPOP`: a server error where the server got in trouble
/// before the key was popped (`None`), else the value popped, nil where the key was
/// missing, or an encoding error.
pub fn mpop_element(pop: Option<PopOutcome>) -> (r: Element)
    ensures
        match pop {
            None => r == Element::ServerErr,
            Some(PopOutcome::Popped(v)) => r matches Element::Str(b) && b@ == v@,
            Some(PopOutcome::Missing) => r == Element::Nil,
            Some(PopOutcome::EncodingError) => r == Element::EncodingErr,
        },
{
    match pop {
        None => Element::ServerErr,
        Some(PopOutcome::Popped(v)) => Element::Str(v),
        Some(PopOutcome::Missing) => Element::Nil,
        Some(PopOutcome::EncodingError) => Element::EncodingErr,
    }
}

} // verus!
