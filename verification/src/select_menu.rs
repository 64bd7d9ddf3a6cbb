//! The menu from which the entries to update are chosen.

use vstd::prelude::*;

verus! {

/// A list of options, all of them chosen to begin with, and the question
/// asked above them.
pub struct SelectMenu<'a> {
    options: &'a [&'a str],
    defaults: Vec<bool>,
    prompt: &'a str,
}

impl<'a> SelectMenu<'a> {
    /// The options, in the order in which they are shown.
    pub closed spec fn options_view(&self) -> Seq<&'a str> {
        self.options@
    }

    /// For each option, whether it is chosen to begin with.
    pub closed spec fn defaults_view(&self) -> Seq<bool> {
        self.defaults@
    }

    /// The question.
    pub closed spec fn prompt_view(&self) -> Seq<char> {
        self.prompt@
    }

    /// Each option has its default.
    pub open spec fn wf(&self) -> bool {
        self.defaults_view().len() == self.options_view().len()
    }

    /// A menu in which every option is chosen to begin with.
    pub fn new(options: &'a [&'a str], prompt: &'a str) -> (menu: Self)
        ensures
            menu.wf(),
            menu.options_view() == options@,
            menu.prompt_view() == prompt@,
            forall|i: int| 0 <= i < options@.len() ==> menu.defaults_view()[i],
    {
        let mut defaults: Vec<bool> = Vec::new();
        let mut i: usize = 0;
        while i < options.len()
            invariant
                i <= options.len(),
                defaults.len() == i,
                forall|j: int| 0 <= j < i ==> defaults[j],
            decreases options.len() - i,
        {
            defaults.push(true);
            i += 1;
        }
        Self { options, defaults, prompt }
    }

    /// The options.
    pub fn options(&self) -> (options: &'a [&'a str])
        ensures
            options@ == self.options_view(),
    {
        self.options
    }

    /// The defaults.
    pub fn defaults(&self) -> (defaults: &Vec<bool>)
        ensures
            defaults@ == self.defaults_view(),
    {
        &self.defaults
    }

    /// The question.
    pub fn prompt(&self) -> (prompt: &'a str)
        ensures
            prompt@ == self.prompt_view(),
    {
        self.prompt
    }

    /// Every place in `selections` is that of an option.
    pub open spec fn in_range(&self, selections: Seq<usize>) -> bool {
        forall|k: int| 0 <= k < selections.len() ==> selections[k] < self.options_view().len()
    }

    /// The options at the places that were chosen, in the order of the
    /// choice. `None` where a place is that of no option.
    pub fn picked(&self, selections: &Vec<usize>) -> (r: Option<Vec<&'a str>>)
        ensures
            r.is_some() == self.in_range(selections@),
            r matches Some(chosen) ==> chosen@ == Seq::new(
                selections@.len(),
                |k: int| self.options_view()[selections@[k] as int],
            ),
    {
        let mut chosen: Vec<&'a str> = Vec::new();
        let mut k: usize = 0;
        while k < selections.len()
            invariant
                k <= selections.len(),
                chosen.len() == k,
                forall|j: int| 0 <= j < k ==> selections@[j] < self.options_view().len(),
                forall|j: int|
                    0 <= j < k ==> chosen@[j] == self.options_view()[selections@[j] as int],
            decreases selections.len() - k,
        {
            let place: usize = selections[k];
            if place >= self.options.len() {
                return None;
            }
            chosen.push(self.options[place]);
            k += 1;
        }
        assert(chosen@ =~= Seq::new(
            selections@.len(),
            |k: int| self.options_view()[selections@[k] as int],
        ));
        Some(chosen)
    }
}

} // verus!
