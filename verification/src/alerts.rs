//! Built-in alert evaluation: which alerts fire and resolve as metrics are
//! collected. An alert of a (rule, resource) pair fires when its metric
//! crosses the threshold while the pair is not firing, resolves when the
//! metric is back under it while firing, and stays quiet otherwise.
//!
//! Threshold comparisons are made on the metric values by the caller; this
//! module keeps the firing state and decides the transitions.

use vstd::prelude::*;

use crate::text::{chars_of, replace_all, replace_all_chars, str_eq, string_of};

verus! {

broadcast use vstd::string::group_string_axioms;

/// A (rule name, resource IRI) pair.
pub type AlertKeyModel = (Seq<char>, Seq<char>);

/// What one rule observed in a metrics collection.
#[derive(Debug, Clone)]
pub struct RuleObservation {
    /// Name of the rule.
    pub rule_name: String,
    /// Whether its metric exceeds the threshold; `None` when the metric is
    /// not in the collection (the rule is skipped).
    pub exceeds: Option<bool>,
}

/// A change of an alert's state.
#[derive(Debug, Clone, Copy, PartialEq, Eq, Structural)]
pub enum AlertTransition {
    /// OK to firing: an AlertFired action.
    Fire,
    /// Firing to OK: an AlertResolved action.
    Resolve,
}

/// The transition an observation causes from state `was_firing`.
pub open spec fn transition_of(was_firing: bool, exceeds: Option<bool>) -> Option<AlertTransition> {
    match exceeds {
        Some(true) => if was_firing {
            None
        } else {
            Some(AlertTransition::Fire)
        },
        Some(false) => if was_firing {
            Some(AlertTransition::Resolve)
        } else {
            None
        },
        None => None,
    }
}

/// The firing set after the observations `obs` for `resource`, in order.
pub open spec fn apply_observations(
    st: Set<AlertKeyModel>,
    resource: Seq<char>,
    obs: Seq<(Seq<char>, Option<bool>)>,
) -> Set<AlertKeyModel>
    decreases obs.len(),
{
    if obs.len() == 0 {
        st
    } else {
        let before = apply_observations(st, resource, obs.drop_last());
        let (rule, ex) = obs.last();
        match ex {
            Some(true) => before.insert((rule, resource)),
            Some(false) => before.remove((rule, resource)),
            None => before,
        }
    }
}

/// The value of a list of observations.
pub open spec fn obs_views(obs: Seq<RuleObservation>) -> Seq<(Seq<char>, Option<bool>)> {
    obs.map_values(|o: RuleObservation| (o.rule_name@, o.exceeds))
}

/// One tracked pair and whether it fires.
#[derive(Debug)]
pub struct FiringEntry {
    pub rule_name: String,
    pub resource_iri: String,
    pub firing: bool,
}

/// The firing state of every (rule, resource) pair seen so far.
pub struct AlertTracker {
    entries: Vec<FiringEntry>,
}

/// Keys of `es` are distinct.
pub open spec fn keys_distinct(es: Seq<FiringEntry>) -> bool {
    forall|i: int, j: int|
        0 <= i < es.len() && 0 <= j < es.len() && i != j ==> (es[i].rule_name@, es[i].resource_iri@) != (
        es[j].rule_name@,
        es[j].resource_iri@,
        )
}

/// The pairs of `es` marked firing.
pub open spec fn firing_keys(es: Seq<FiringEntry>) -> Set<AlertKeyModel> {
    Set::new(
        |k: AlertKeyModel|
            exists|i: int|
                0 <= i < es.len() && (es[i].rule_name@, es[i].resource_iri@) == k && es[i].firing,
    )
}

impl AlertTracker {
    /// The pairs currently firing.
    pub closed spec fn firing(&self) -> Set<AlertKeyModel> {
        firing_keys(self.entries@)
    }

    /// Internal consistency: each pair is tracked once.
    pub closed spec fn wf(&self) -> bool {
        keys_distinct(self.entries@)
    }

    /// A tracker where nothing fires.
    pub fn new() -> (t: AlertTracker)
        ensures
            t.wf(),
            t.firing() == Set::<AlertKeyModel>::empty(),
    {
        let t = AlertTracker { entries: Vec::new() };
        assert(t.firing() =~= Set::<AlertKeyModel>::empty());
        t
    }

    /// Is the alert of `rule` on `resource` firing?
    pub fn is_firing(&self, rule: &str, resource: &str) -> (r: bool)
        requires
            self.wf(),
        ensures
            r == self.firing().contains((rule@, resource@)),
    {
        match self.find(rule, resource) {
            Some(k) => self.entries[k].firing,
            None => false,
        }
    }

    /// The index of the entry of a pair.
    fn find(&self, rule: &str, resource: &str) -> (r: Option<usize>)
        requires
            self.wf(),
        ensures
            match r {
                Some(k) => k < self.entries@.len() && (self.entries@[k as int].rule_name@, self.entries@[k as int].resource_iri@)
                    == (rule@, resource@) && (self.firing().contains((rule@, resource@)) == self.entries@[k as int].firing),
                None => forall|i: int|
                    0 <= i < self.entries@.len() ==> (self.entries@[i].rule_name@, self.entries@[i].resource_iri@)
                        != (rule@, resource@),
            },
            r is None ==> !self.firing().contains((rule@, resource@)),
    {
        let mut k: usize = 0;
        while k < self.entries.len()
            invariant
                k <= self.entries@.len(),
                self.wf(),
                forall|i: int|
                    0 <= i < k ==> (self.entries@[i].rule_name@, self.entries@[i].resource_iri@) != (rule@, resource@),
            decreases self.entries@.len() - k,
        {
            if str_eq(self.entries[k].rule_name.as_str(), rule) && str_eq(self.entries[k].resource_iri.as_str(), resource) {
                proof {
                    let ghost key = (rule@, resource@);
                    if self.firing().contains(key) {
                        let i = choose|i: int|
                            0 <= i < self.entries@.len() && (self.entries@[i].rule_name@, self.entries@[i].resource_iri@) == key
                                && self.entries@[i].firing;
                        assert(keys_distinct(self.entries@));
                        if i != k {
                            assert((self.entries@[i].rule_name@, self.entries@[i].resource_iri@) != (
                                self.entries@[k as int].rule_name@,
                                self.entries@[k as int].resource_iri@,
                            ));
                        }
                    }
                }
                return Some(k);
            }
            k = k + 1;
        }
        None
    }

    /// Set whether the pair fires.
    fn set_firing(&mut self, rule: &str, resource: &str, f: bool)
        requires
            old(self).wf(),
        ensures
            final(self).wf(),
            final(self).firing() == if f {
                old(self).firing().insert((rule@, resource@))
            } else {
                old(self).firing().remove((rule@, resource@))
            },
    {
        let ghost key = (rule@, resource@);
        let ghost es0 = self.entries@;
        match self.find(rule, resource) {
            Some(k) => {
                let e = FiringEntry {
                    rule_name: String::from_str(rule),
                    resource_iri: String::from_str(resource),
                    firing: f,
                };
                self.entries.set(k, e);
                proof {
                    let es = self.entries@;
                    assert(keys_distinct(es));
                    assert forall|x: AlertKeyModel| #[trigger] firing_keys(es).contains(x) == (if f {
                        firing_keys(es0).insert(key)
                    } else {
                        firing_keys(es0).remove(key)
                    }).contains(x) by {
                        if x == key {
                            if f {
                                assert((es[k as int].rule_name@, es[k as int].resource_iri@) == x);
                            } else if firing_keys(es).contains(x) {
                                let i = choose|i: int|
                                    0 <= i < es.len() && (es[i].rule_name@, es[i].resource_iri@) == x && es[i].firing;
                                assert(i == k);
                            }
                        } else {
                            if firing_keys(es0).contains(x) {
                                let i = choose|i: int|
                                    0 <= i < es0.len() && (es0[i].rule_name@, es0[i].resource_iri@) == x && es0[i].firing;
                                assert(es[i] == es0[i]);
                            }
                            if firing_keys(es).contains(x) {
                                let i = choose|i: int|
                                    0 <= i < es.len() && (es[i].rule_name@, es[i].resource_iri@) == x && es[i].firing;
                                assert(es[i] == es0[i]);
                            }
                        }
                    }
                    assert(firing_keys(es) =~= if f {
                        firing_keys(es0).insert(key)
                    } else {
                        firing_keys(es0).remove(key)
                    });
                }
            },
            None => {
                let e = FiringEntry {
                    rule_name: String::from_str(rule),
                    resource_iri: String::from_str(resource),
                    firing: f,
                };
                self.entries.push(e);
                proof {
                    let es = self.entries@;
                    let n = es0.len() as int;
                    assert(keys_distinct(es));
                    assert forall|x: AlertKeyModel| #[trigger] firing_keys(es).contains(x) == (if f {
                        firing_keys(es0).insert(key)
                    } else {
                        firing_keys(es0).remove(key)
                    }).contains(x) by {
                        if x == key {
                            if f {
                                assert((es[n].rule_name@, es[n].resource_iri@) == x);
                            } else if firing_keys(es).contains(x) {
                                let i = choose|i: int|
                                    0 <= i < es.len() && (es[i].rule_name@, es[i].resource_iri@) == x && es[i].firing;
                                assert(i == n);
                            }
                        } else {
                            if firing_keys(es0).contains(x) {
                                let i = choose|i: int|
                                    0 <= i < es0.len() && (es0[i].rule_name@, es0[i].resource_iri@) == x && es0[i].firing;
                                assert(es[i] == es0[i]);
                            }
                            if firing_keys(es).contains(x) {
                                let i = choose|i: int|
                                    0 <= i < es.len() && (es[i].rule_name@, es[i].resource_iri@) == x && es[i].firing;
                                assert(i < n);
                                assert(es[i] == es0[i]);
                            }
                        }
                    }
                    assert(firing_keys(es) =~= if f {
                        firing_keys(es0).insert(key)
                    } else {
                        firing_keys(es0).remove(key)
                    });
                }
            },
        }
    }

    /// Evaluate one metrics collection of `resource`: for each rule, in
    /// order, the transition its observation causes (`None` for no action),
    /// updating the firing state as it goes.
    pub fn evaluate(&mut self, resource: &str, observations: &Vec<RuleObservation>) -> (r: Vec<Option<AlertTransition>>)
        requires
            old(self).wf(),
        ensures
            final(self).wf(),
            final(self).firing() == apply_observations(old(self).firing(), resource@, obs_views(observations@)),
            r@.len() == observations@.len(),
            forall|i: int|
                0 <= i < r@.len() ==> #[trigger] r@[i] == transition_of(
                    apply_observations(old(self).firing(), resource@, obs_views(observations@).take(i)).contains(
                        (observations@[i].rule_name@, resource@),
                    ),
                    observations@[i].exceeds,
                ),
    {
        let ghost st0 = self.firing();
        let ghost ov = obs_views(observations@);
        let mut out: Vec<Option<AlertTransition>> = Vec::new();
        let mut i: usize = 0;
        assert(ov.take(0) =~= Seq::<(Seq<char>, Option<bool>)>::empty());
        while i < observations.len()
            invariant
                i <= observations@.len() == ov.len(),
                ov == obs_views(observations@),
                self.wf(),
                self.firing() == apply_observations(st0, resource@, ov.take(i as int)),
                out@.len() == i,
                forall|k: int|
                    0 <= k < i ==> #[trigger] out@[k] == transition_of(
                        apply_observations(st0, resource@, ov.take(k)).contains((observations@[k].rule_name@, resource@)),
                        observations@[k].exceeds,
                    ),
            decreases observations@.len() - i,
        {
            let o = &observations[i];
            let was = self.is_firing(o.rule_name.as_str(), resource);
            assert(ov.take(i + 1).drop_last() =~= ov.take(i as int));
            assert(ov.take(i + 1).last() == (o.rule_name@, o.exceeds));
            let t = match o.exceeds {
                Some(true) => {
                    if was {
                        None
                    } else {
                        self.set_firing(o.rule_name.as_str(), resource, true);
                        Some(AlertTransition::Fire)
                    }
                },
                Some(false) => {
                    if was {
                        self.set_firing(o.rule_name.as_str(), resource, false);
                        Some(AlertTransition::Resolve)
                    } else {
                        None
                    }
                },
                None => None,
            };
            proof {
                let before = apply_observations(st0, resource@, ov.take(i as int));
                let k = (o.rule_name@, resource@);
                if o.exceeds == Some(true) && was {
                    assert(before.insert(k) =~= before);
                }
                if o.exceeds == Some(false) && !was {
                    assert(before.remove(k) =~= before);
                }
            }
            out.push(t);
            i = i + 1;
        }
        assert(ov.take(observations@.len() as int) =~= ov);
        out
    }
}

/// In the same pass, rule names are all different.
pub open spec fn distinct_rules(obs: Seq<(Seq<char>, Option<bool>)>) -> bool {
    forall|i: int, j: int| 0 <= i < obs.len() && 0 <= j < obs.len() && i != j ==> obs[i].0 != obs[j].0
}

/// A pair no observation names keeps its state.
proof fn lemma_apply_other(st: Set<AlertKeyModel>, resource: Seq<char>, obs: Seq<(Seq<char>, Option<bool>)>, rule: Seq<char>)
    requires
        forall|i: int| 0 <= i < obs.len() ==> #[trigger] obs[i].0 != rule,
    ensures
        apply_observations(st, resource, obs).contains((rule, resource)) == st.contains((rule, resource)),
    decreases obs.len(),
{
    if obs.len() > 0 {
        lemma_apply_other(st, resource, obs.drop_last(), rule);
    }
}

/// With distinct rule names, the pair of observation `i` ends up firing as
/// that observation says, or keeps its state when the metric was absent.
proof fn lemma_apply_own(st: Set<AlertKeyModel>, resource: Seq<char>, obs: Seq<(Seq<char>, Option<bool>)>, i: int)
    requires
        distinct_rules(obs),
        0 <= i < obs.len(),
    ensures
        apply_observations(st, resource, obs).contains((obs[i].0, resource)) == match obs[i].1 {
            Some(b) => b,
            None => st.contains((obs[i].0, resource)),
        },
    decreases obs.len(),
{
    let p = obs.drop_last();
    if i < obs.len() - 1 {
        lemma_apply_own(st, resource, p, i);
    } else {
        assert forall|j: int| 0 <= j < p.len() implies #[trigger] p[j].0 != obs[i].0 by {
            assert(obs[j].0 != obs[i].0);
        }
        lemma_apply_other(st, resource, p, obs[i].0);
    }
}

/// Alerts are dampened: evaluating the same observations (with distinct
/// rule names) a second time causes no transition at all.
pub proof fn law_repeated_evaluation_is_quiet(st: Set<AlertKeyModel>, resource: Seq<char>, obs: Seq<(Seq<char>, Option<bool>)>)
    requires
        distinct_rules(obs),
    ensures
        forall|i: int|
            0 <= i < obs.len() ==> #[trigger] transition_of(
                apply_observations(apply_observations(st, resource, obs), resource, obs.take(i)).contains((obs[i].0, resource)),
                obs[i].1,
            ) is None,
{
    let s1 = apply_observations(st, resource, obs);
    assert forall|i: int| 0 <= i < obs.len() implies #[trigger] transition_of(
        apply_observations(s1, resource, obs.take(i)).contains((obs[i].0, resource)),
        obs[i].1,
    ) is None by {
        let t = obs.take(i);
        assert forall|j: int| 0 <= j < t.len() implies #[trigger] t[j].0 != obs[i].0 by {
            assert(t[j] == obs[j]);
        }
        lemma_apply_other(s1, resource, t, obs[i].0);
        lemma_apply_own(st, resource, obs, i);
    }
}

/// With distinct rule names, each rule of an evaluation is judged against
/// its own state before the evaluation: it fires when its metric exceeds the
/// threshold and it was not firing, resolves when its metric does not exceed
/// it and it was firing, and otherwise causes nothing. Afterwards it fires
/// exactly when its metric exceeds the threshold; a rule whose metric is
/// absent, and a rule no observation names, keeps its state.
pub proof fn law_each_rule_judged_on_its_own(st: Set<AlertKeyModel>, resource: Seq<char>, obs: Seq<(Seq<char>, Option<bool>)>)
    requires
        distinct_rules(obs),
    ensures
        forall|i: int|
            0 <= i < obs.len() ==> transition_of(
                apply_observations(st, resource, obs.take(i)).contains((#[trigger] obs[i].0, resource)),
                obs[i].1,
            ) == transition_of(st.contains((obs[i].0, resource)), obs[i].1),
        forall|i: int|
            0 <= i < obs.len() ==> apply_observations(st, resource, obs).contains((#[trigger] obs[i].0, resource)) == match obs[i].1 {
                Some(b) => b,
                None => st.contains((obs[i].0, resource)),
            },
        forall|rule: Seq<char>|
            (forall|i: int| 0 <= i < obs.len() ==> #[trigger] obs[i].0 != rule) ==> #[trigger] apply_observations(st, resource, obs).contains(
                (rule, resource),
            ) == st.contains((rule, resource)),
{
    assert forall|i: int| 0 <= i < obs.len() implies transition_of(
        apply_observations(st, resource, obs.take(i)).contains((#[trigger] obs[i].0, resource)),
        obs[i].1,
    ) == transition_of(st.contains((obs[i].0, resource)), obs[i].1) by {
        let t = obs.take(i);
        assert forall|j: int| 0 <= j < t.len() implies #[trigger] t[j].0 != obs[i].0 by {
            assert(t[j] == obs[j]);
        }
        lemma_apply_other(st, resource, t, obs[i].0);
    }
    assert forall|i: int| 0 <= i < obs.len() implies apply_observations(st, resource, obs).contains((#[trigger] obs[i].0, resource)) == match obs[i].1 {
        Some(b) => b,
        None => st.contains((obs[i].0, resource)),
    } by {
        lemma_apply_own(st, resource, obs, i);
    }
    assert forall|rule: Seq<char>|
        (forall|i: int| 0 <= i < obs.len() ==> #[trigger] obs[i].0 != rule) implies #[trigger] apply_observations(st, resource, obs).contains(
            (rule, resource),
        ) == st.contains((rule, resource)) by {
        lemma_apply_other(st, resource, obs, rule);
    }
}

/// An alert that fired is resolved by the next observation under the
/// threshold, and only then.
pub proof fn law_fire_then_resolve(was: bool)
    ensures
        transition_of(false, Some(true)) == Some(AlertTransition::Fire),
        transition_of(true, Some(false)) == Some(AlertTransition::Resolve),
        transition_of(was, None) is None,
{
}

/// The index of the first metric called `name`.
pub fn find_metric(names: &Vec<String>, name: &str) -> (r: Option<usize>)
    ensures
        match r {
            Some(k) => k < names@.len() && names@[k as int]@ == name@ && forall|j: int| 0 <= j < k ==> names@[j]@ != name@,
            None => forall|j: int| 0 <= j < names@.len() ==> names@[j]@ != name@,
        },
{
    let mut k: usize = 0;
    while k < names.len()
        invariant
            k <= names@.len(),
            forall|j: int| 0 <= j < k ==> names@[j]@ != name@,
        decreases names@.len() - k,
    {
        if str_eq(names[k].as_str(), name) {
            return Some(k);
        }
        k = k + 1;
    }
    None
}

/// The alert message: `{value}` and `{threshold}` in the template replaced
/// by the formatted metric value and threshold.
pub fn render_alert_message(template: &str, value_text: &str, threshold_text: &str) -> (r: String)
    ensures
        r@ == replace_all(replace_all(template@, "{value}"@, value_text@), "{threshold}"@, threshold_text@),
{
    let t = chars_of(template);
    let p1 = chars_of("{value}");
    let v = chars_of(value_text);
    proof {
        reveal_strlit("{value}");
        reveal_strlit("{threshold}");
    }
    let a = replace_all_chars(t.as_slice(), p1.as_slice(), v.as_slice());
    let p2 = chars_of("{threshold}");
    let th = chars_of(threshold_text);
    let b = replace_all_chars(a.as_slice(), p2.as_slice(), th.as_slice());
    string_of(b.as_slice())
}

} // verus!
