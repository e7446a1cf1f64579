//! Plain data for the launcher front-ends: the error message they show and
//! the callback state they carry between menu invocations. The menu
//! rendering and environment handling around these live with the
//! front-ends themselves.

use vstd::prelude::*;

verus! {

/// An error shown by a launcher front-end.
#[derive(Debug)]
pub struct RofiPluginError {
    msg: String,
}

impl View for RofiPluginError {
    type V = Seq<char>;

    closed spec fn view(&self) -> Seq<char> {
        self.msg@
    }
}

impl RofiPluginError {
    /// Wraps a message.
    pub fn new(msg: &str) -> (r: RofiPluginError)
        ensures
            r@ == msg@,
    {
        RofiPluginError { msg: msg.to_owned() }
    }

    /// The message, for display.
    pub fn message(&self) -> (r: &str)
        ensures
            r@ == self@,
    {
        self.msg.as_str()
    }
}

/// The state a launcher front-end carries between menu invocations: the
/// callback to run, the parameters collected so far, and whether the next
/// invocation's input is one more parameter.
#[derive(Debug)]
pub struct RofiPluginState {
    callback: String,
    params: Vec<String>,
    inputting_params: bool,
}

impl RofiPluginState {
    /// The callback name.
    pub closed spec fn spec_callback(&self) -> Seq<char> {
        self.callback@
    }

    /// The collected parameters.
    pub closed spec fn spec_params(&self) -> Seq<Seq<char>> {
        self.params.deep_view()
    }

    /// Whether the next input is one more parameter.
    pub closed spec fn spec_inputting_params(&self) -> bool {
        self.inputting_params
    }

    /// A state that starts the given callback with the given parameters.
    pub fn new(callback: String, params: Vec<String>) -> (r: RofiPluginState)
        ensures
            r.spec_callback() == callback@,
            r.spec_params() == params.deep_view(),
            !r.spec_inputting_params(),
    {
        RofiPluginState { callback, params, inputting_params: false }
    }

    /// The callback name.
    pub fn callback(&self) -> (r: &str)
        ensures
            r@ == self.spec_callback(),
    {
        self.callback.as_str()
    }

    /// The collected parameters.
    pub fn params(&self) -> (r: &Vec<String>)
        ensures
            r.deep_view() == self.spec_params(),
    {
        &self.params
    }

    /// Whether the next input is one more parameter.
    pub fn is_inputting_params(&self) -> (r: bool)
        ensures
            r == self.spec_inputting_params(),
    {
        self.inputting_params
    }

    /// The empty state, which ends the menu interaction.
    pub fn empty() -> (r: RofiPluginState)
        ensures
            r.spec_callback() == Seq::<char>::empty(),
            r.spec_params() == Seq::<Seq<char>>::empty(),
            !r.spec_inputting_params(),
    {
        let r = RofiPluginState::new(String::new(), Vec::new());
        proof {
            assert(r.spec_params() =~= Seq::<Seq<char>>::empty());
        }
        r
    }
}

} // verus!
