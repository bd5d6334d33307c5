//! `cec`: drive a display's power directly, without touching topology.
//!
//! Useful on its own, and the quickest way to tell whether the adapter is working
//! when a `switch` does not do what was expected.

use vstd::prelude::*;

use crate::config::Config;
use crate::display::apply::CecTarget;
use crate::error::{chain, Error};
use crate::seqs::{lemma_slots_where, slots_where};
use crate::text::{cat3, join, texts};

verus! {

/// What to do about a display's power.
#[derive(Debug, Clone, Copy, PartialEq, Eq, Structural)]
pub enum Action {
    /// Report the display's power state.
    Status,
    /// Wake the display and take over its input.
    On,
    /// Put the display into standby.
    Off,
}

/// Targets that have power control.
pub open spec fn capable(config: Config) -> spec_fn(int) -> bool {
    |i: int| config.targets.values()[i].cec is Some
}

/// The names of the targets that have power control, in order.
pub open spec fn capable_names(config: Config) -> Seq<Seq<char>> {
    let places = slots_where(config.targets.names().len(), capable(config));
    places.map_values(|i: int| config.targets.names()[i])
}

/// Whether a choice is the target listed at a place.
pub open spec fn is_target(chosen: CecTarget, config: Config, i: int) -> bool {
    &&& 0 <= i < config.targets.names().len()
    &&& chosen.name@ == config.targets.names()[i]
    &&& config.targets.values()[i].cec == Some(chosen.conf)
}

// The targets that have power control, in order.
fn capable_targets(config: &Config) -> (r: Vec<CecTarget>)
    ensures
        config.targets.wf(),
        r@.len() == slots_where(config.targets.names().len(), capable(*config)).len(),
        forall|k: int|
            0 <= k < r@.len() ==> is_target(
                #[trigger] r@[k],
                *config,
                slots_where(config.targets.names().len(), capable(*config))[k],
            ),
{
    let mut out: Vec<CecTarget> = Vec::new();
    let n = config.targets.len();
    for i in 0..n
        invariant
            config.targets.wf(),
            n == config.targets.names().len(),
            out@.len() == slots_where(i as nat, capable(*config)).len(),
            forall|k: int|
                0 <= k < out@.len() ==> is_target(
                    #[trigger] out@[k],
                    *config,
                    slots_where(i as nat, capable(*config))[k],
                ),
    {
        if let Some(conf) = config.targets.value_at(i).cec {
            out.push(CecTarget { name: config.targets.name_at(i).clone(), conf });
        }
    }
    out
}

/// Find the target to act on: the named one, or the only one with power control.
pub fn pick(config: &Config, target: Option<&str>) -> (r: Result<CecTarget, Error>)
    ensures
        match target {
            Some(want) => if config.targets@.dom().contains(want@)
                && config.targets@[want@].cec is Some {
                r matches Ok(chosen) && chosen.name@ == want@ && Some(chosen.conf)
                    == config.targets@[want@].cec
            } else {
                r matches Err(e) && chain(e) == seq![
                    "target \""@ + want@ + "\" has no \"cec\" block in the config"@,
                ]
            },
            None => {
                let places = slots_where(config.targets.names().len(), capable(*config));
                if places.len() == 1 {
                    r matches Ok(chosen) && is_target(chosen, *config, places[0])
                } else if places.len() == 0 {
                    r matches Err(e) && chain(e) == seq![
                        "no target in the config has a \"cec\" block"@,
                    ]
                } else {
                    r matches Err(e) && chain(e) == seq![
                        "several targets support CEC ("@ + join(capable_names(*config), ", "@)
                            + "); name the one you mean"@,
                    ]
                }
            },
        },
{
    match target {
        Some(want) => {
            if let Some(entry) = config.targets.get(want) {
                if let Some(conf) = entry.cec {
                    return Ok(CecTarget { name: want.to_owned(), conf });
                }
            }
            Err(
                Error::Plain {
                    why: cat3("target \"", want, "\" has no \"cec\" block in the config"),
                },
            )
        },
        None => {
            let mut all = capable_targets(config);
            if all.len() == 1 {
                return Ok(all.remove(0));
            }
            if all.len() == 0 {
                return Err(
                    Error::Plain {
                        why: "no target in the config has a \"cec\" block".to_owned(),
                    },
                );
            }
            let mut names: Vec<String> = Vec::new();
            let ghost expected = capable_names(*config);
            for i in 0..all.len()
                invariant
                    all@.len() == expected.len(),
                    expected == capable_names(*config),
                    forall|k: int|
                        0 <= k < all@.len() ==> is_target(
                            #[trigger] all@[k],
                            *config,
                            slots_where(config.targets.names().len(), capable(*config))[k],
                        ),
                    texts(names@) == expected.take(i as int),
            {
                let ghost before = names@;
                names.push(all[i].name.clone());
                assert(is_target(
                    all@[i as int],
                    *config,
                    slots_where(config.targets.names().len(), capable(*config))[i as int],
                ));
                assert(texts(names@) =~= texts(before).push(expected[i as int]));
                assert(expected.take(i + 1) =~= expected.take(i as int).push(expected[i as int]));
            }
            assert(expected.take(all@.len() as int) =~= expected);
            let list = crate::text::joined(names.as_slice(), ", ");
            Err(
                Error::Plain {
                    why: cat3(
                        "several targets support CEC (",
                        list.as_str(),
                        "); name the one you mean",
                    ),
                },
            )
        },
    }
}

/// A target that was picked has power control, and is one of the config's.
pub proof fn law_a_picked_target_is_capable(config: Config, chosen: CecTarget)
    requires
        slots_where(config.targets.names().len(), capable(config)).len() == 1,
        is_target(
            chosen,
            config,
            slots_where(config.targets.names().len(), capable(config))[0],
        ),
    ensures
        forall|i: int|
            0 <= i < config.targets.names().len() && (
            #[trigger] config.targets.values()[i]).cec is Some ==> is_target(chosen, config, i),
{
    let places = slots_where(config.targets.names().len(), capable(config));
    lemma_slots_where(config.targets.names().len(), capable(config));
    assert forall|i: int|
        0 <= i < config.targets.names().len() && (
        #[trigger] config.targets.values()[i]).cec is Some implies is_target(chosen, config, i) by {
        assert(places.contains(i));
    }
}

/// Without a name, the only target with a `cec` block is picked. With none or several of
/// them nothing is, and where there are several, each of them is named, in name order.
pub proof fn law_only_an_unambiguous_target_is_picked(config: Config, i: int, j: int)
    requires
        0 <= i < config.targets.names().len(),
    ensures
        ({
            let n = config.targets.names().len();
            let places = slots_where(n, capable(config));
            let values = config.targets.values();
            &&& values[i].cec is Some ==> places.len() > 0 && capable_names(config).contains(
                config.targets.names()[i],
            )
            &&& 0 <= j < n && i != j && values[i].cec is Some && values[j].cec is Some
                ==> places.len() > 1
            &&& places.len() == 1 ==> (places[0] == i <==> values[i].cec is Some)
            &&& capable_names(config).len() == places.len()
            &&& forall|a: int, b: int|
                0 <= a < b < places.len() ==> #[trigger] places[a] < #[trigger] places[b]
            &&& forall|a: int|
                0 <= a < places.len() ==> 0 <= #[trigger] places[a] < n && values[places[a]].cec
                    is Some && capable_names(config)[a] == config.targets.names()[places[a]]
        }),
{
    let n = config.targets.names().len();
    let places = slots_where(n, capable(config));
    let names = capable_names(config);
    lemma_slots_where(n, capable(config));
    if config.targets.values()[i].cec is Some {
        assert(places.contains(i));
        let k = choose|k: int| 0 <= k < places.len() && places[k] == i;
        assert(names[k] == config.targets.names()[i]);
    }
    if 0 <= j < n && config.targets.values()[j].cec is Some {
        assert(places.contains(j));
    }
    assert forall|a: int| 0 <= a < places.len() implies 0 <= #[trigger] places[a] < n
        && config.targets.values()[places[a]].cec is Some by {
        assert(places.contains(places[a]));
    }
}

/// The display that was named is the one that is addressed, where it has a CEC address.
/// Without a name the only one that has an address is; with none or several of them nothing
/// is addressed, and what is said tells the two apart.
pub proof fn law_the_named_display_is_addressed(
    config: &Config,
    want: &str,
    named: Result<CecTarget, Error>,
    unnamed: Result<CecTarget, Error>,
)
    requires
        call_ensures(pick, (config, Some(want)), named),
        call_ensures(pick, (config, None::<&str>), unnamed),
    ensures
        named is Ok <==> config.targets@.dom().contains(want@) && config.targets@[want@].cec
            is Some,
        named matches Ok(chosen) ==> chosen.name@ == want@ && Some(chosen.conf)
            == config.targets@[want@].cec,
        named matches Err(e) ==> chain(e) == seq![
            "target \""@ + want@ + "\" has no \"cec\" block in the config"@,
        ],
        ({
            let places = slots_where(config.targets.names().len(), capable(*config));
            &&& unnamed is Ok <==> places.len() == 1
            &&& unnamed matches Ok(chosen) ==> is_target(chosen, *config, places[0])
            &&& places.len() == 0 ==> (unnamed matches Err(e) && chain(e) == seq![
                "no target in the config has a \"cec\" block"@,
            ])
            &&& places.len() > 1 ==> (unnamed matches Err(e) && chain(e) == seq![
                "several targets support CEC ("@ + join(capable_names(*config), ", "@)
                    + "); name the one you mean"@,
            ])
        }),
{
}

} // verus!
