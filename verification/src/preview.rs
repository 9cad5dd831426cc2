//! The interactive preview's menu and input reading: the actions on offer
//! at the director's node, each with its label, and the reading of the
//! player's choice. The terminal itself is the caller's part.

use vstd::prelude::*;
use vstd::string::*;

use crate::content::{entry_values, AbilityDef, ContentBundle};
use crate::director::{exits_of, GameDirector, PlayerInput};
use crate::narrative::NarrativeEdge;
use crate::session::scene_npcs_of;
use crate::state::{StateModel, WorldState};
use crate::text::parse_unsigned;

verus! {

/// The mathematical content of an input: (0 exit, 1 ability, 2 examine,
/// 3 talk) and its target.
pub open spec fn input_view(p: PlayerInput) -> (nat, Seq<char>) {
    match p {
        PlayerInput::ChooseExit(t) => (0, t@),
        PlayerInput::UseAbility(a) => (1, a@),
        PlayerInput::Examine => (2, Seq::empty()),
        PlayerInput::Talk(n) => (3, n@),
    }
}

/// The menu entry of an exit.
pub open spec fn exit_entry(e: NarrativeEdge) -> (Seq<char>, (nat, Seq<char>)) {
    (
        "Go: "@ + match e.label {
            Some(l) => l@,
            None => e.target@,
        },
        (0, e.target@),
    )
}

/// The menu entry of an NPC to talk to.
pub open spec fn talk_entry(n: Seq<char>) -> (Seq<char>, (nat, Seq<char>)) {
    ("Talk to "@ + n, (3, n))
}

/// The menu entry of an ability.
pub open spec fn ability_entry(a: AbilityDef) -> (Seq<char>, (nat, Seq<char>)) {
    ("Use: "@ + a.name@ + " — "@ + a.description@, (1, a.id@))
}

/// The preview menu at node `at` in state `m`: the open exits, the scene's
/// NPCs, every ability, then examining the surroundings.
pub open spec fn menu_of(b: ContentBundle, at: Seq<char>, m: StateModel) -> Seq<(Seq<char>, (nat, Seq<char>))> {
    exits_of(b, at, m).map_values(|e: NarrativeEdge| exit_entry(e)) + scene_npcs_of(b, at).map_values(
        |n: Seq<char>| talk_entry(n),
    ) + entry_values(b.abilities.seq()).map_values(|a: AbilityDef| ability_entry(a)) + seq![
        ("Examine surroundings"@, (2nat, Seq::<char>::empty())),
    ]
}

/// The mathematical content of a menu.
pub open spec fn menu_view(s: Seq<(String, PlayerInput)>) -> Seq<(Seq<char>, (nat, Seq<char>))> {
    s.map_values(|e: (String, PlayerInput)| (e.0@, input_view(e.1)))
}

/// Appends an entry to the menu.
fn push_entry(menu: &mut Vec<(String, PlayerInput)>, label: String, input: PlayerInput)
    ensures
        menu_view(final(menu)@) == menu_view(old(menu)@).push((label@, input_view(input))),
{
    let ghost before = menu@;
    let ghost e = (label, input);
    menu.push((label, input));
    proof {
        assert(menu@ == before.push(e));
        assert(menu_view(menu@) =~= menu_view(before).push((e.0@, input_view(e.1))));
    }
}

/// The actions on offer at the director's node, each with its label.
pub fn action_menu(director: &GameDirector, state: &WorldState, bundle: &ContentBundle) -> (r: Vec<(String, PlayerInput)>)
    ensures
        menu_view(r@) == menu_of(*bundle, director.node(), state.model()),
{
    let mut menu: Vec<(String, PlayerInput)> = Vec::new();
    let exits = director.available_exits(bundle, state);
    let ghost es = exits_of(*bundle, director.node(), state.model());
    let mut i: usize = 0;
    while i < exits.len()
        invariant
            i <= exits@.len(),
            es == crate::narrative::deref_edges(exits@),
            menu_view(menu@) == es.subrange(0, i as int).map_values(|e: NarrativeEdge| exit_entry(e)),
        decreases exits@.len() - i,
    {
        let edge = exits[i];
        let shown: &str = match &edge.label {
            Some(l) => l.as_str(),
            None => edge.target.as_str(),
        };
        push_entry(&mut menu, crate::text::concat2("Go: ", shown), PlayerInput::ChooseExit(edge.target.clone()));
        proof {
            assert(es[i as int] == *edge);
            assert(es.subrange(0, i + 1).map_values(|e: NarrativeEdge| exit_entry(e)) =~= es.subrange(0, i as int).map_values(
                |e: NarrativeEdge| exit_entry(e),
            ).push(exit_entry(*edge)));
        }
        i = i + 1;
    }
    proof {
        assert(es.subrange(0, es.len() as int) =~= es);
    }
    let ghost after_exits = menu_view(menu@);
    let ghost npcs = scene_npcs_of(*bundle, director.node());
    let mut scene_npcs: Vec<String> = Vec::new();
    match bundle.narrative.get(director.current_node_id()) {
        Some(node) => match bundle.scenes.get(node.content_ref.as_str()) {
            Some(scene) => {
                let mut j: usize = 0;
                while j < scene.npcs.len()
                    invariant
                        j <= scene.npcs@.len(),
                        crate::collections::string_views(scene_npcs@) == crate::collections::string_views(scene.npcs@.subrange(0, j as int)),
                    decreases scene.npcs@.len() - j,
                {
                    let ghost before = scene_npcs@;
                    let c = scene.npcs[j].clone();
                    scene_npcs.push(c);
                    proof {
                        assert(scene_npcs@ == before.push(c));
                        assert(scene.npcs@.subrange(0, j + 1) == scene.npcs@.subrange(0, j as int).push(scene.npcs@[j as int]));
                        assert(crate::collections::string_views(scene_npcs@) =~= crate::collections::string_views(before).push(c@));
                        assert(crate::collections::string_views(scene.npcs@.subrange(0, j + 1)) =~= crate::collections::string_views(
                            scene.npcs@.subrange(0, j as int),
                        ).push(c@));
                    }
                    j = j + 1;
                }
                proof {
                    assert(scene.npcs@.subrange(0, scene.npcs@.len() as int) =~= scene.npcs@);
                }
            },
            None => {},
        },
        None => {},
    }
    proof {
        assert(crate::collections::string_views(scene_npcs@) == npcs);
    }
    let mut k: usize = 0;
    while k < scene_npcs.len()
        invariant
            k <= scene_npcs@.len(),
            crate::collections::string_views(scene_npcs@) == npcs,
            menu_view(menu@) == after_exits + npcs.subrange(0, k as int).map_values(|n: Seq<char>| talk_entry(n)),
        decreases scene_npcs@.len() - k,
    {
        let id = &scene_npcs[k];
        push_entry(&mut menu, crate::text::concat2("Talk to ", id.as_str()), PlayerInput::Talk(id.clone()));
        proof {
            assert(npcs[k as int] == id@);
            assert(npcs.subrange(0, k + 1).map_values(|n: Seq<char>| talk_entry(n)) =~= npcs.subrange(0, k as int).map_values(
                |n: Seq<char>| talk_entry(n),
            ).push(talk_entry(id@)));
        }
        k = k + 1;
    }
    proof {
        assert(npcs.subrange(0, npcs.len() as int) =~= npcs);
    }
    let ghost after_talk = menu_view(menu@);
    let ghost abs = entry_values(bundle.abilities.seq());
    let mut a: usize = 0;
    while a < bundle.abilities.len()
        invariant
            a <= abs.len(),
            abs == entry_values(bundle.abilities.seq()),
            abs.len() == bundle.abilities.seq().len(),
            menu_view(menu@) == after_talk + abs.subrange(0, a as int).map_values(|x: AbilityDef| ability_entry(x)),
        decreases abs.len() - a,
    {
        let ability = bundle.abilities.value_at(a);
        let mut label = String::from_str("Use: ");
        label.append(ability.name.as_str());
        label.append(" — ");
        label.append(ability.description.as_str());
        push_entry(&mut menu, label, PlayerInput::UseAbility(ability.id.clone()));
        proof {
            assert(abs[a as int] == *ability);
            assert(abs.subrange(0, a + 1).map_values(|x: AbilityDef| ability_entry(x)) =~= abs.subrange(0, a as int).map_values(
                |x: AbilityDef| ability_entry(x),
            ).push(ability_entry(*ability)));
        }
        a = a + 1;
    }
    proof {
        assert(abs.subrange(0, abs.len() as int) =~= abs);
    }
    push_entry(&mut menu, String::from_str("Examine surroundings"), PlayerInput::Examine);
    proof {
        assert(input_view(PlayerInput::Examine) == (2nat, Seq::<char>::empty()));
        assert(menu_view(menu@) =~= menu_of(*bundle, director.node(), state.model()));
    }
    menu
}

/// The menu index a line of input chooses: none for `q` or `quit` (after
/// trimming), for text that does not read as a `usize`, or for an index
/// past the menu.
pub open spec fn choice_of(input: Seq<char>, max: nat) -> Option<nat> {
    let t = crate::ipc::listener::trimmed(input);
    if t == "q"@ || t == "quit"@ {
        None
    } else {
        match parse_unsigned(t, usize::MAX as nat) {
            Some(i) => if i < max {
                Some(i)
            } else {
                None
            },
            None => None,
        }
    }
}

/// Reads the player's menu choice from a line of input.
pub fn parse_choice(input: &str, max: usize) -> (r: Option<usize>)
    ensures
        match r {
            Some(i) => choice_of(input@, max as nat) == Some(i as nat),
            None => choice_of(input@, max as nat) is None,
        },
{
    let t = crate::ipc::listener::trim(input);
    if crate::text::str_eq(t, "q") || crate::text::str_eq(t, "quit") {
        return None;
    }
    match crate::text::parse_unsigned_max(t, usize::MAX as u64) {
        Some(i) => if (i as usize) < max {
            Some(i as usize)
        } else {
            None
        },
        None => None,
    }
}

} // verus!
