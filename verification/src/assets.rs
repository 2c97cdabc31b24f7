//! The stylesheets and scripts a rendered page references.
use vstd::prelude::*;

verus! {

/// URL path of the always-included base stylesheet.
pub const GUIDE_CSS_PATH: &'static str = "/static/guide.css";

/// URL path of the solution-toggle script, injected when a course uses solutions.
pub const TOGGLE_JS_PATH: &'static str = "/static/toggle.js";

/// URL path of the reveal.js script used by slideshow pages.
pub const REVEAL_JS_PATH: &'static str = "/static/reveal.min.js";

/// URL path of the reveal.js base stylesheet.
pub const REVEAL_CSS_PATH: &'static str = "/static/reveal.min.css";

/// URL path of the CloudBridge slideshow theme stylesheet.
pub const SLIDES_CSS_PATH: &'static str = "/static/slides.css";

/// URL path of the mermaid.js bundle, injected when a page renders diagrams.
pub const MERMAID_JS_PATH: &'static str = "/static/mermaid.min.js";

/// URL path of the mermaid initializer, injected after the bundle on guide pages.
pub const MERMAID_INIT_JS_PATH: &'static str = "/static/mermaid-init.js";

/// URL path of the live-toast client (SSE notifications), loaded on all pages.
pub const NOTIFICATIONS_JS_PATH: &'static str = "/static/notifications.js";

/// The views of a list of strings.
pub open spec fn strings_view(v: Seq<String>) -> Seq<Seq<char>> {
    v.map_values(|s: String| s@)
}

/// No entry occurs twice.
pub open spec fn no_duplicates(v: Seq<Seq<char>>) -> bool {
    forall|i: int, j: int| 0 <= i < j < v.len() ==> v[i] != v[j]
}

/// `list` with `value` appended unless it is already there.
pub open spec fn push_unique_spec(list: Seq<Seq<char>>, value: Seq<char>) -> Seq<Seq<char>> {
    if list.contains(value) {
        list
    } else {
        list.push(value)
    }
}

/// The stylesheets, and scripts, a rendered page must reference, in order,
/// without duplicates.
#[derive(Debug, Clone, PartialEq, Eq)]
pub struct PageAssets {
    pub styles: Vec<String>,
    pub scripts: Vec<String>,
}

impl PageAssets {
    /// The style hrefs, as text.
    pub open spec fn style_list(&self) -> Seq<Seq<char>> {
        strings_view(self.styles@)
    }

    /// The script srcs, as text.
    pub open spec fn script_list(&self) -> Seq<Seq<char>> {
        strings_view(self.scripts@)
    }

    /// Neither list holds an entry twice.
    pub open spec fn wf(&self) -> bool {
        no_duplicates(self.style_list()) && no_duplicates(self.script_list())
    }

    /// The platform baseline: the guide stylesheet, no scripts.
    pub fn base() -> (r: Self)
        ensures
            r.style_list() == seq![GUIDE_CSS_PATH@],
            r.script_list() == Seq::<Seq<char>>::empty(),
            r.wf(),
    {
        let mut styles: Vec<String> = Vec::new();
        styles.push(GUIDE_CSS_PATH.to_owned());
        let r = PageAssets { styles, scripts: Vec::new() };
        assert(r.style_list() =~= seq![GUIDE_CSS_PATH@]);
        assert(r.script_list() =~= Seq::<Seq<char>>::empty());
        r
    }

    /// Appends a stylesheet href, skipping duplicates, preserving order.
    pub fn push_style(&mut self, href: &str)
        ensures
            final(self).style_list() == push_unique_spec(old(self).style_list(), href@),
            final(self).script_list() == old(self).script_list(),
    {
        push_unique(&mut self.styles, href);
    }

    /// Appends a script src, skipping duplicates, preserving order.
    pub fn push_script(&mut self, src: &str)
        ensures
            final(self).script_list() == push_unique_spec(old(self).script_list(), src@),
            final(self).style_list() == old(self).style_list(),
    {
        push_unique(&mut self.scripts, src);
    }
}

/// Appends `value` to `list` unless an equal entry is already there.
pub fn push_unique(list: &mut Vec<String>, value: &str)
    ensures
        strings_view(final(list)@) == push_unique_spec(strings_view(old(list)@), value@),
{
    let owned = value.to_owned();
    let mut i: usize = 0;
    while i < list.len()
        invariant
            i <= list@.len(),
            owned@ == value@,
            forall|j: int| 0 <= j < i ==> (#[trigger] list@[j])@ != value@,
        decreases list@.len() - i,
    {
        if list[i] == owned {
            assert(strings_view(list@)[i as int] == value@);
            return;
        }
        i = i + 1;
    }
    let ghost before = strings_view(list@);
    assert(!before.contains(value@)) by {
        if before.contains(value@) {
            let k = choose|k: int| 0 <= k < before.len() && before[k] == value@;
            assert(list@[k]@ == value@);
        }
    }
    list.push(owned);
    assert(strings_view(list@) =~= before.push(value@));
}

/// Appending without duplicates keeps a duplicate-free list duplicate-free.
pub proof fn lemma_push_unique_keeps_distinct(list: Seq<Seq<char>>, value: Seq<char>)
    requires
        no_duplicates(list),
    ensures
        no_duplicates(push_unique_spec(list, value)),
        push_unique_spec(list, value).contains(value),
{
    if !list.contains(value) {
        let r = list.push(value);
        assert(r[list.len() as int] == value);
        assert forall|i: int, j: int| 0 <= i < j < r.len() implies r[i] != r[j] by {
            if j == list.len() {
                assert(r[i] == list[i]);
            } else {
                assert(r[i] == list[i] && r[j] == list[j]);
            }
        }
    }
}

/// Pushing the same entry a second time changes nothing.
pub proof fn lemma_push_unique_idempotent(list: Seq<Seq<char>>, value: Seq<char>)
    ensures
        push_unique_spec(push_unique_spec(list, value), value) == push_unique_spec(list, value),
{
    if !list.contains(value) {
        assert(list.push(value)[list.len() as int] == value);
    }
}

} // verus!
