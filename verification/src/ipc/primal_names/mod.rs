//! Canonical primal names: lowercase discovery slugs (`squirrel`,
//! `rhizocrypt`) and mixed-case display names (`Squirrel`, `rhizoCrypt`),
//! with the domain each default primal serves.

use vstd::prelude::*;
use vstd::string::*;

use crate::text::str_eq;

pub mod domain;

verus! {

/// Discovery slug for Squirrel.
pub const SQUIRREL: &'static str = "squirrel";

/// Discovery slug for petalTongue.
pub const PETALTONGUE: &'static str = "petaltongue";

/// Discovery slug for `ToadStool`.
pub const TOADSTOOL: &'static str = "toadstool";

/// Discovery slug for `NestGate`.
pub const NESTGATE: &'static str = "nestgate";

/// Discovery slug for ludoSpring.
pub const LUDOSPRING: &'static str = "ludospring";

/// Discovery slug for rhizoCrypt.
pub const RHIZOCRYPT: &'static str = "rhizocrypt";

/// Discovery slug for `LoamSpine`.
pub const LOAMSPINE: &'static str = "loamspine";

/// Discovery slug for sweetGrass.
pub const SWEETGRASS: &'static str = "sweetgrass";

/// Domain-to-default-primal mapping for discovery: (domain, slug).
pub const DOMAIN_PRIMAL_MAP: [(&'static str, &'static str); 8] = [
    (domain::AI, SQUIRREL),
    (domain::VISUALIZATION, PETALTONGUE),
    (domain::COMPUTE, TOADSTOOL),
    (domain::STORAGE, NESTGATE),
    (domain::GAME, LUDOSPRING),
    (domain::DAG, RHIZOCRYPT),
    (domain::LINEAGE, LOAMSPINE),
    (domain::PROVENANCE, SWEETGRASS),
];

/// The known ecosystem primals as (slug, display name), by slug.
pub open spec fn primal_table() -> Seq<(Seq<char>, Seq<char>)> {
    seq![
        ("barracuda"@, "barraCuda"@),
        ("beardog"@, "BearDog"@),
        ("biomeos"@, "biomeOS"@),
        ("coralreef"@, "coralReef"@),
        ("esotericwebb"@, "esotericWebb"@),
        ("fieldmouse"@, "fieldMouse"@),
        ("loamspine"@, "LoamSpine"@),
        ("ludospring"@, "ludoSpring"@),
        ("nestgate"@, "NestGate"@),
        ("petaltongue"@, "petalTongue"@),
        ("rhizocrypt"@, "rhizoCrypt"@),
        ("songbird"@, "Songbird"@),
        ("sourdough"@, "sourDough"@),
        ("squirrel"@, "Squirrel"@),
        ("sweetgrass"@, "sweetGrass"@),
        ("toadstool"@, "ToadStool"@),
    ]
}

/// The known ecosystem primals as (slug, display name), by slug.
fn primal_table_exec() -> (r: Vec<(&'static str, &'static str)>)
    ensures
        r@.len() == primal_table().len(),
        forall|i: int| 0 <= i < r@.len() ==> (#[trigger] r@[i]).0@ == primal_table()[i].0 && r@[i].1@ == primal_table()[i].1,
{
    let r = vec![
        ("barracuda", "barraCuda"),
        ("beardog", "BearDog"),
        ("biomeos", "biomeOS"),
        ("coralreef", "coralReef"),
        ("esotericwebb", "esotericWebb"),
        ("fieldmouse", "fieldMouse"),
        ("loamspine", "LoamSpine"),
        ("ludospring", "ludoSpring"),
        ("nestgate", "NestGate"),
        ("petaltongue", "petalTongue"),
        ("rhizocrypt", "rhizoCrypt"),
        ("songbird", "Songbird"),
        ("sourdough", "sourDough"),
        ("squirrel", "Squirrel"),
        ("sweetgrass", "sweetGrass"),
        ("toadstool", "ToadStool"),
    ];
    proof {
        assert forall|i: int| 0 <= i < r@.len() implies (#[trigger] r@[i]).0@ == primal_table()[i].0 && r@[i].1@ == primal_table()[i].1 by {
            if i == 0 {
                assert(r@[0] == ("barracuda", "barraCuda"));
            }
            if i == 1 {
                assert(r@[1] == ("beardog", "BearDog"));
            }
            if i == 2 {
                assert(r@[2] == ("biomeos", "biomeOS"));
            }
            if i == 3 {
                assert(r@[3] == ("coralreef", "coralReef"));
            }
            if i == 4 {
                assert(r@[4] == ("esotericwebb", "esotericWebb"));
            }
            if i == 5 {
                assert(r@[5] == ("fieldmouse", "fieldMouse"));
            }
            if i == 6 {
                assert(r@[6] == ("loamspine", "LoamSpine"));
            }
            if i == 7 {
                assert(r@[7] == ("ludospring", "ludoSpring"));
            }
            if i == 8 {
                assert(r@[8] == ("nestgate", "NestGate"));
            }
            if i == 9 {
                assert(r@[9] == ("petaltongue", "petalTongue"));
            }
            if i == 10 {
                assert(r@[10] == ("rhizocrypt", "rhizoCrypt"));
            }
            if i == 11 {
                assert(r@[11] == ("songbird", "Songbird"));
            }
            if i == 12 {
                assert(r@[12] == ("sourdough", "sourDough"));
            }
            if i == 13 {
                assert(r@[13] == ("squirrel", "Squirrel"));
            }
            if i == 14 {
                assert(r@[14] == ("sweetgrass", "sweetGrass"));
            }
            if i == 15 {
                assert(r@[15] == ("toadstool", "ToadStool"));
            }
        }
    }
    r
}

/// The first row of `t` whose entry in column `col` (0 or 1) is `x`.
pub open spec fn row_of(t: Seq<(Seq<char>, Seq<char>)>, col: int, x: Seq<char>) -> Option<int>
    decreases t.len(),
{
    if t.len() == 0 {
        None
    } else {
        match row_of(t.drop_last(), col, x) {
            Some(i) => Some(i),
            None => if (if col == 0 { t.last().0 } else { t.last().1 }) == x {
                Some(t.len() - 1)
            } else {
                None
            },
        }
    }
}

/// The display name of a slug: the mixed-case name of a known primal, or
/// the slug itself.
pub open spec fn display_name_of(slug: Seq<char>) -> Seq<char> {
    match row_of(primal_table(), 0, slug) {
        Some(i) => primal_table()[i].1,
        None => slug,
    }
}

/// The slug of a display name: the lowercase slug of a known primal, or
/// the name itself.
pub open spec fn slug_of(display: Seq<char>) -> Seq<char> {
    match row_of(primal_table(), 1, display) {
        Some(i) => primal_table()[i].0,
        None => display,
    }
}

/// Whether `s` is the slug of a known primal.
pub open spec fn is_known_slug(s: Seq<char>) -> bool {
    exists|i: int| 0 <= i < primal_table().len() && primal_table()[i].0 == s
}

/// Whether `s` is the display name of a known primal.
pub open spec fn is_known_display(s: Seq<char>) -> bool {
    exists|i: int| 0 <= i < primal_table().len() && primal_table()[i].1 == s
}

/// The default primal for a domain.
pub open spec fn primal_of_domain(d: Seq<char>) -> Option<Seq<char>> {
    match row_of(domain_table(), 0, d) {
        Some(i) => Some(domain_table()[i].1),
        None => None,
    }
}

/// The domains and their default primals, as (domain, slug).
pub open spec fn domain_table() -> Seq<(Seq<char>, Seq<char>)> {
    seq![
        ("ai"@, "squirrel"@),
        ("visualization"@, "petaltongue"@),
        ("compute"@, "toadstool"@),
        ("storage"@, "nestgate"@),
        ("game"@, "ludospring"@),
        ("dag"@, "rhizocrypt"@),
        ("lineage"@, "loamspine"@),
        ("provenance"@, "sweetgrass"@),
    ]
}

/// Characterization of `row_of`.
pub proof fn lemma_row_of(t: Seq<(Seq<char>, Seq<char>)>, col: int, x: Seq<char>)
    ensures
        match row_of(t, col, x) {
            Some(i) => 0 <= i < t.len() && (if col == 0 { t[i].0 } else { t[i].1 }) == x && forall|j: int|
                0 <= j < i ==> (if col == 0 { (#[trigger] t[j]).0 } else { t[j].1 }) != x,
            None => forall|j: int| 0 <= j < t.len() ==> (if col == 0 { (#[trigger] t[j]).0 } else { t[j].1 }) != x,
        },
    decreases t.len(),
{
    if t.len() > 0 {
        lemma_row_of(t.drop_last(), col, x);
        assert forall|j: int| 0 <= j < t.len() - 1 implies t.drop_last()[j] == t[j] by {}
    }
}

/// Finds the first row of the table `t` whose column `col` holds `x`.
fn find_row(t: &Vec<(&'static str, &'static str)>, col: usize, x: &str, Ghost(spec_t): Ghost<Seq<(Seq<char>, Seq<char>)>>) -> (r: Option<usize>)
    requires
        col <= 1,
        t@.len() == spec_t.len(),
        forall|i: int| 0 <= i < t@.len() ==> (#[trigger] t@[i]).0@ == spec_t[i].0 && t@[i].1@ == spec_t[i].1,
    ensures
        match r {
            Some(i) => row_of(spec_t, col as int, x@) == Some(i as int) && i < t@.len(),
            None => row_of(spec_t, col as int, x@) is None,
        },
{
    proof {
        lemma_row_of(spec_t, col as int, x@);
    }
    let mut i: usize = 0;
    while i < t.len()
        invariant
            col <= 1,
            i <= t@.len(),
            t@.len() == spec_t.len(),
            forall|k: int| 0 <= k < t@.len() ==> (#[trigger] t@[k]).0@ == spec_t[k].0 && t@[k].1@ == spec_t[k].1,
            forall|j: int| 0 <= j < i ==> (if col == 0 { (#[trigger] spec_t[j]).0 } else { spec_t[j].1 }) != x@,
        decreases t@.len() - i,
    {
        let cell = if col == 0 { t[i].0 } else { t[i].1 };
        proof {
            assert(t@[i as int].0@ == spec_t[i as int].0);
        }
        if str_eq(cell, x) {
            proof {
                lemma_row_of(spec_t, col as int, x@);
                match row_of(spec_t, col as int, x@) {
                    Some(k) => {
                        if k > i {
                            assert((if col == 0 { spec_t[i as int].0 } else { spec_t[i as int].1 }) != x@);
                        }
                    },
                    None => {
                        assert((if col == 0 { spec_t[i as int].0 } else { spec_t[i as int].1 }) != x@);
                    },
                }
            }
            return Some(i);
        }
        i = i + 1;
    }
    proof {
        match row_of(spec_t, col as int, x@) {
            Some(k) => {
                assert((if col == 0 { spec_t[k].0 } else { spec_t[k].1 }) != x@);
            },
            None => {},
        }
    }
    None
}

/// Lowercase discovery slug to mixed-case display name; unknown names
/// pass through unchanged.
pub fn display_name<'a>(slug: &'a str) -> (r: &'a str)
    ensures
        r@ == display_name_of(slug@),
{
    let t = primal_table_exec();
    match find_row(&t, 0, slug, Ghost(primal_table())) {
        Some(i) => t[i].1,
        None => slug,
    }
}

/// Mixed-case display name to lowercase discovery slug; unknown names
/// pass through unchanged.
pub fn discovery_slug<'a>(display: &'a str) -> (r: &'a str)
    ensures
        r@ == slug_of(display@),
{
    let t = primal_table_exec();
    match find_row(&t, 1, display, Ghost(primal_table())) {
        Some(i) => t[i].0,
        None => display,
    }
}

/// The default primals by domain, as (domain, slug).
pub(crate) fn domain_table_exec() -> (r: Vec<(&'static str, &'static str)>)
    ensures
        r@.len() == domain_table().len(),
        forall|i: int| 0 <= i < r@.len() ==> (#[trigger] r@[i]).0@ == domain_table()[i].0 && r@[i].1@ == domain_table()[i].1,
{
    let r = vec![
        ("ai", "squirrel"),
        ("visualization", "petaltongue"),
        ("compute", "toadstool"),
        ("storage", "nestgate"),
        ("game", "ludospring"),
        ("dag", "rhizocrypt"),
        ("lineage", "loamspine"),
        ("provenance", "sweetgrass"),
    ];
    proof {
        assert forall|i: int| 0 <= i < r@.len() implies (#[trigger] r@[i]).0@ == domain_table()[i].0 && r@[i].1@ == domain_table()[i].1 by {
            if i == 0 {
                assert(r@[0] == ("ai", "squirrel"));
            }
            if i == 1 {
                assert(r@[1] == ("visualization", "petaltongue"));
            }
            if i == 2 {
                assert(r@[2] == ("compute", "toadstool"));
            }
            if i == 3 {
                assert(r@[3] == ("storage", "nestgate"));
            }
            if i == 4 {
                assert(r@[4] == ("game", "ludospring"));
            }
            if i == 5 {
                assert(r@[5] == ("dag", "rhizocrypt"));
            }
            if i == 6 {
                assert(r@[6] == ("lineage", "loamspine"));
            }
            if i == 7 {
                assert(r@[7] == ("provenance", "sweetgrass"));
            }
        }
    }
    r
}

/// The default primal for a domain, if the domain is known.
pub fn primal_for_domain(domain: &str) -> (r: Option<&'static str>)
    ensures
        match r {
            Some(p) => primal_of_domain(domain@) == Some(p@),
            None => primal_of_domain(domain@) is None,
        },
{
    let t = domain_table_exec();
    match find_row(&t, 0, domain, Ghost(domain_table())) {
        Some(i) => Some(t[i].1),
        None => None,
    }
}

/// No slug and no display name occurs twice in the table.
proof fn lemma_table_distinct()
    ensures
        forall|i: int, j: int| 0 <= i < j < primal_table().len() ==> (#[trigger] primal_table()[i]).0 != (#[trigger] primal_table()[j]).0
            && primal_table()[i].1 != primal_table()[j].1,
{
    reveal_strlit("barracuda");
    reveal_strlit("barraCuda");
    reveal_strlit("beardog");
    reveal_strlit("BearDog");
    reveal_strlit("biomeos");
    reveal_strlit("biomeOS");
    reveal_strlit("coralreef");
    reveal_strlit("coralReef");
    reveal_strlit("esotericwebb");
    reveal_strlit("esotericWebb");
    reveal_strlit("fieldmouse");
    reveal_strlit("fieldMouse");
    reveal_strlit("loamspine");
    reveal_strlit("LoamSpine");
    reveal_strlit("ludospring");
    reveal_strlit("ludoSpring");
    reveal_strlit("nestgate");
    reveal_strlit("NestGate");
    reveal_strlit("petaltongue");
    reveal_strlit("petalTongue");
    reveal_strlit("rhizocrypt");
    reveal_strlit("rhizoCrypt");
    reveal_strlit("songbird");
    reveal_strlit("Songbird");
    reveal_strlit("sourdough");
    reveal_strlit("sourDough");
    reveal_strlit("squirrel");
    reveal_strlit("Squirrel");
    reveal_strlit("sweetgrass");
    reveal_strlit("sweetGrass");
    reveal_strlit("toadstool");
    reveal_strlit("ToadStool");
    assert forall|i: int, j: int| 0 <= i < j < primal_table().len() implies (#[trigger] primal_table()[i]).0 != (#[trigger] primal_table()[j]).0
        && primal_table()[i].1 != primal_table()[j].1 by {
        if i == 0 && j == 1 {
            assert("barracuda"@.len() != "beardog"@.len());
            assert("barraCuda"@.len() != "BearDog"@.len());
        }
        if i == 0 && j == 2 {
            assert("barracuda"@.len() != "biomeos"@.len());
            assert("barraCuda"@.len() != "biomeOS"@.len());
        }
        if i == 0 && j == 3 {
            assert("barracuda"@[0] != "coralreef"@[0]);
            assert("barraCuda"@[0] != "coralReef"@[0]);
        }
        if i == 0 && j == 4 {
            assert("barracuda"@.len() != "esotericwebb"@.len());
            assert("barraCuda"@.len() != "esotericWebb"@.len());
        }
        if i == 0 && j == 5 {
            assert("barracuda"@.len() != "fieldmouse"@.len());
            assert("barraCuda"@.len() != "fieldMouse"@.len());
        }
        if i == 0 && j == 6 {
            assert("barracuda"@[0] != "loamspine"@[0]);
            assert("barraCuda"@[0] != "LoamSpine"@[0]);
        }
        if i == 0 && j == 7 {
            assert("barracuda"@.len() != "ludospring"@.len());
            assert("barraCuda"@.len() != "ludoSpring"@.len());
        }
        if i == 0 && j == 8 {
            assert("barracuda"@.len() != "nestgate"@.len());
            assert("barraCuda"@.len() != "NestGate"@.len());
        }
        if i == 0 && j == 9 {
            assert("barracuda"@.len() != "petaltongue"@.len());
            assert("barraCuda"@.len() != "petalTongue"@.len());
        }
        if i == 0 && j == 10 {
            assert("barracuda"@.len() != "rhizocrypt"@.len());
            assert("barraCuda"@.len() != "rhizoCrypt"@.len());
        }
        if i == 0 && j == 11 {
            assert("barracuda"@.len() != "songbird"@.len());
            assert("barraCuda"@.len() != "Songbird"@.len());
        }
        if i == 0 && j == 12 {
            assert("barracuda"@[0] != "sourdough"@[0]);
            assert("barraCuda"@[0] != "sourDough"@[0]);
        }
        if i == 0 && j == 13 {
            assert("barracuda"@.len() != "squirrel"@.len());
            assert("barraCuda"@.len() != "Squirrel"@.len());
        }
        if i == 0 && j == 14 {
            assert("barracuda"@.len() != "sweetgrass"@.len());
            assert("barraCuda"@.len() != "sweetGrass"@.len());
        }
        if i == 0 && j == 15 {
            assert("barracuda"@[0] != "toadstool"@[0]);
            assert("barraCuda"@[0] != "ToadStool"@[0]);
        }
        if i == 1 && j == 2 {
            assert("beardog"@[1] != "biomeos"@[1]);
            assert("BearDog"@[0] != "biomeOS"@[0]);
        }
        if i == 1 && j == 3 {
            assert("beardog"@.len() != "coralreef"@.len());
            assert("BearDog"@.len() != "coralReef"@.len());
        }
        if i == 1 && j == 4 {
            assert("beardog"@.len() != "esotericwebb"@.len());
            assert("BearDog"@.len() != "esotericWebb"@.len());
        }
        if i == 1 && j == 5 {
            assert("beardog"@.len() != "fieldmouse"@.len());
            assert("BearDog"@.len() != "fieldMouse"@.len());
        }
        if i == 1 && j == 6 {
            assert("beardog"@.len() != "loamspine"@.len());
            assert("BearDog"@.len() != "LoamSpine"@.len());
        }
        if i == 1 && j == 7 {
            assert("beardog"@.len() != "ludospring"@.len());
            assert("BearDog"@.len() != "ludoSpring"@.len());
        }
        if i == 1 && j == 8 {
            assert("beardog"@.len() != "nestgate"@.len());
            assert("BearDog"@.len() != "NestGate"@.len());
        }
        if i == 1 && j == 9 {
            assert("beardog"@.len() != "petaltongue"@.len());
            assert("BearDog"@.len() != "petalTongue"@.len());
        }
        if i == 1 && j == 10 {
            assert("beardog"@.len() != "rhizocrypt"@.len());
            assert("BearDog"@.len() != "rhizoCrypt"@.len());
        }
        if i == 1 && j == 11 {
            assert("beardog"@.len() != "songbird"@.len());
            assert("BearDog"@.len() != "Songbird"@.len());
        }
        if i == 1 && j == 12 {
            assert("beardog"@.len() != "sourdough"@.len());
            assert("BearDog"@.len() != "sourDough"@.len());
        }
        if i == 1 && j == 13 {
            assert("beardog"@.len() != "squirrel"@.len());
            assert("BearDog"@.len() != "Squirrel"@.len());
        }
        if i == 1 && j == 14 {
            assert("beardog"@.len() != "sweetgrass"@.len());
            assert("BearDog"@.len() != "sweetGrass"@.len());
        }
        if i == 1 && j == 15 {
            assert("beardog"@.len() != "toadstool"@.len());
            assert("BearDog"@.len() != "ToadStool"@.len());
        }
        if i == 2 && j == 3 {
            assert("biomeos"@.len() != "coralreef"@.len());
            assert("biomeOS"@.len() != "coralReef"@.len());
        }
        if i == 2 && j == 4 {
            assert("biomeos"@.len() != "esotericwebb"@.len());
            assert("biomeOS"@.len() != "esotericWebb"@.len());
        }
        if i == 2 && j == 5 {
            assert("biomeos"@.len() != "fieldmouse"@.len());
            assert("biomeOS"@.len() != "fieldMouse"@.len());
        }
        if i == 2 && j == 6 {
            assert("biomeos"@.len() != "loamspine"@.len());
            assert("biomeOS"@.len() != "LoamSpine"@.len());
        }
        if i == 2 && j == 7 {
            assert("biomeos"@.len() != "ludospring"@.len());
            assert("biomeOS"@.len() != "ludoSpring"@.len());
        }
        if i == 2 && j == 8 {
            assert("biomeos"@.len() != "nestgate"@.len());
            assert("biomeOS"@.len() != "NestGate"@.len());
        }
        if i == 2 && j == 9 {
            assert("biomeos"@.len() != "petaltongue"@.len());
            assert("biomeOS"@.len() != "petalTongue"@.len());
        }
        if i == 2 && j == 10 {
            assert("biomeos"@.len() != "rhizocrypt"@.len());
            assert("biomeOS"@.len() != "rhizoCrypt"@.len());
        }
        if i == 2 && j == 11 {
            assert("biomeos"@.len() != "songbird"@.len());
            assert("biomeOS"@.len() != "Songbird"@.len());
        }
        if i == 2 && j == 12 {
            assert("biomeos"@.len() != "sourdough"@.len());
            assert("biomeOS"@.len() != "sourDough"@.len());
        }
        if i == 2 && j == 13 {
            assert("biomeos"@.len() != "squirrel"@.len());
            assert("biomeOS"@.len() != "Squirrel"@.len());
        }
        if i == 2 && j == 14 {
            assert("biomeos"@.len() != "sweetgrass"@.len());
            assert("biomeOS"@.len() != "sweetGrass"@.len());
        }
        if i == 2 && j == 15 {
            assert("biomeos"@.len() != "toadstool"@.len());
            assert("biomeOS"@.len() != "ToadStool"@.len());
        }
        if i == 3 && j == 4 {
            assert("coralreef"@.len() != "esotericwebb"@.len());
            assert("coralReef"@.len() != "esotericWebb"@.len());
        }
        if i == 3 && j == 5 {
            assert("coralreef"@.len() != "fieldmouse"@.len());
            assert("coralReef"@.len() != "fieldMouse"@.len());
        }
        if i == 3 && j == 6 {
            assert("coralreef"@[0] != "loamspine"@[0]);
            assert("coralReef"@[0] != "LoamSpine"@[0]);
        }
        if i == 3 && j == 7 {
            assert("coralreef"@.len() != "ludospring"@.len());
            assert("coralReef"@.len() != "ludoSpring"@.len());
        }
        if i == 3 && j == 8 {
            assert("coralreef"@.len() != "nestgate"@.len());
            assert("coralReef"@.len() != "NestGate"@.len());
        }
        if i == 3 && j == 9 {
            assert("coralreef"@.len() != "petaltongue"@.len());
            assert("coralReef"@.len() != "petalTongue"@.len());
        }
        if i == 3 && j == 10 {
            assert("coralreef"@.len() != "rhizocrypt"@.len());
            assert("coralReef"@.len() != "rhizoCrypt"@.len());
        }
        if i == 3 && j == 11 {
            assert("coralreef"@.len() != "songbird"@.len());
            assert("coralReef"@.len() != "Songbird"@.len());
        }
        if i == 3 && j == 12 {
            assert("coralreef"@[0] != "sourdough"@[0]);
            assert("coralReef"@[0] != "sourDough"@[0]);
        }
        if i == 3 && j == 13 {
            assert("coralreef"@.len() != "squirrel"@.len());
            assert("coralReef"@.len() != "Squirrel"@.len());
        }
        if i == 3 && j == 14 {
            assert("coralreef"@.len() != "sweetgrass"@.len());
            assert("coralReef"@.len() != "sweetGrass"@.len());
        }
        if i == 3 && j == 15 {
            assert("coralreef"@[0] != "toadstool"@[0]);
            assert("coralReef"@[0] != "ToadStool"@[0]);
        }
        if i == 4 && j == 5 {
            assert("esotericwebb"@.len() != "fieldmouse"@.len());
            assert("esotericWebb"@.len() != "fieldMouse"@.len());
        }
        if i == 4 && j == 6 {
            assert("esotericwebb"@.len() != "loamspine"@.len());
            assert("esotericWebb"@.len() != "LoamSpine"@.len());
        }
        if i == 4 && j == 7 {
            assert("esotericwebb"@.len() != "ludospring"@.len());
            assert("esotericWebb"@.len() != "ludoSpring"@.len());
        }
        if i == 4 && j == 8 {
            assert("esotericwebb"@.len() != "nestgate"@.len());
            assert("esotericWebb"@.len() != "NestGate"@.len());
        }
        if i == 4 && j == 9 {
            assert("esotericwebb"@.len() != "petaltongue"@.len());
            assert("esotericWebb"@.len() != "petalTongue"@.len());
        }
        if i == 4 && j == 10 {
            assert("esotericwebb"@.len() != "rhizocrypt"@.len());
            assert("esotericWebb"@.len() != "rhizoCrypt"@.len());
        }
        if i == 4 && j == 11 {
            assert("esotericwebb"@.len() != "songbird"@.len());
            assert("esotericWebb"@.len() != "Songbird"@.len());
        }
        if i == 4 && j == 12 {
            assert("esotericwebb"@.len() != "sourdough"@.len());
            assert("esotericWebb"@.len() != "sourDough"@.len());
        }
        if i == 4 && j == 13 {
            assert("esotericwebb"@.len() != "squirrel"@.len());
            assert("esotericWebb"@.len() != "Squirrel"@.len());
        }
        if i == 4 && j == 14 {
            assert("esotericwebb"@.len() != "sweetgrass"@.len());
            assert("esotericWebb"@.len() != "sweetGrass"@.len());
        }
        if i == 4 && j == 15 {
            assert("esotericwebb"@.len() != "toadstool"@.len());
            assert("esotericWebb"@.len() != "ToadStool"@.len());
        }
        if i == 5 && j == 6 {
            assert("fieldmouse"@.len() != "loamspine"@.len());
            assert("fieldMouse"@.len() != "LoamSpine"@.len());
        }
        if i == 5 && j == 7 {
            assert("fieldmouse"@[0] != "ludospring"@[0]);
            assert("fieldMouse"@[0] != "ludoSpring"@[0]);
        }
        if i == 5 && j == 8 {
            assert("fieldmouse"@.len() != "nestgate"@.len());
            assert("fieldMouse"@.len() != "NestGate"@.len());
        }
        if i == 5 && j == 9 {
            assert("fieldmouse"@.len() != "petaltongue"@.len());
            assert("fieldMouse"@.len() != "petalTongue"@.len());
        }
        if i == 5 && j == 10 {
            assert("fieldmouse"@[0] != "rhizocrypt"@[0]);
            assert("fieldMouse"@[0] != "rhizoCrypt"@[0]);
        }
        if i == 5 && j == 11 {
            assert("fieldmouse"@.len() != "songbird"@.len());
            assert("fieldMouse"@.len() != "Songbird"@.len());
        }
        if i == 5 && j == 12 {
            assert("fieldmouse"@.len() != "sourdough"@.len());
            assert("fieldMouse"@.len() != "sourDough"@.len());
        }
        if i == 5 && j == 13 {
            assert("fieldmouse"@.len() != "squirrel"@.len());
            assert("fieldMouse"@.len() != "Squirrel"@.len());
        }
        if i == 5 && j == 14 {
            assert("fieldmouse"@[0] != "sweetgrass"@[0]);
            assert("fieldMouse"@[0] != "sweetGrass"@[0]);
        }
        if i == 5 && j == 15 {
            assert("fieldmouse"@.len() != "toadstool"@.len());
            assert("fieldMouse"@.len() != "ToadStool"@.len());
        }
        if i == 6 && j == 7 {
            assert("loamspine"@.len() != "ludospring"@.len());
            assert("LoamSpine"@.len() != "ludoSpring"@.len());
        }
        if i == 6 && j == 8 {
            assert("loamspine"@.len() != "nestgate"@.len());
            assert("LoamSpine"@.len() != "NestGate"@.len());
        }
        if i == 6 && j == 9 {
            assert("loamspine"@.len() != "petaltongue"@.len());
            assert("LoamSpine"@.len() != "petalTongue"@.len());
        }
        if i == 6 && j == 10 {
            assert("loamspine"@.len() != "rhizocrypt"@.len());
            assert("LoamSpine"@.len() != "rhizoCrypt"@.len());
        }
        if i == 6 && j == 11 {
            assert("loamspine"@.len() != "songbird"@.len());
            assert("LoamSpine"@.len() != "Songbird"@.len());
        }
        if i == 6 && j == 12 {
            assert("loamspine"@[0] != "sourdough"@[0]);
            assert("LoamSpine"@[0] != "sourDough"@[0]);
        }
        if i == 6 && j == 13 {
            assert("loamspine"@.len() != "squirrel"@.len());
            assert("LoamSpine"@.len() != "Squirrel"@.len());
        }
        if i == 6 && j == 14 {
            assert("loamspine"@.len() != "sweetgrass"@.len());
            assert("LoamSpine"@.len() != "sweetGrass"@.len());
        }
        if i == 6 && j == 15 {
            assert("loamspine"@[0] != "toadstool"@[0]);
            assert("LoamSpine"@[0] != "ToadStool"@[0]);
        }
        if i == 7 && j == 8 {
            assert("ludospring"@.len() != "nestgate"@.len());
            assert("ludoSpring"@.len() != "NestGate"@.len());
        }
        if i == 7 && j == 9 {
            assert("ludospring"@.len() != "petaltongue"@.len());
            assert("ludoSpring"@.len() != "petalTongue"@.len());
        }
        if i == 7 && j == 10 {
            assert("ludospring"@[0] != "rhizocrypt"@[0]);
            assert("ludoSpring"@[0] != "rhizoCrypt"@[0]);
        }
        if i == 7 && j == 11 {
            assert("ludospring"@.len() != "songbird"@.len());
            assert("ludoSpring"@.len() != "Songbird"@.len());
        }
        if i == 7 && j == 12 {
            assert("ludospring"@.len() != "sourdough"@.len());
            assert("ludoSpring"@.len() != "sourDough"@.len());
        }
        if i == 7 && j == 13 {
            assert("ludospring"@.len() != "squirrel"@.len());
            assert("ludoSpring"@.len() != "Squirrel"@.len());
        }
        if i == 7 && j == 14 {
            assert("ludospring"@[0] != "sweetgrass"@[0]);
            assert("ludoSpring"@[0] != "sweetGrass"@[0]);
        }
        if i == 7 && j == 15 {
            assert("ludospring"@.len() != "toadstool"@.len());
            assert("ludoSpring"@.len() != "ToadStool"@.len());
        }
        if i == 8 && j == 9 {
            assert("nestgate"@.len() != "petaltongue"@.len());
            assert("NestGate"@.len() != "petalTongue"@.len());
        }
        if i == 8 && j == 10 {
            assert("nestgate"@.len() != "rhizocrypt"@.len());
            assert("NestGate"@.len() != "rhizoCrypt"@.len());
        }
        if i == 8 && j == 11 {
            assert("nestgate"@[0] != "songbird"@[0]);
            assert("NestGate"@[0] != "Songbird"@[0]);
        }
        if i == 8 && j == 12 {
            assert("nestgate"@.len() != "sourdough"@.len());
            assert("NestGate"@.len() != "sourDough"@.len());
        }
        if i == 8 && j == 13 {
            assert("nestgate"@[0] != "squirrel"@[0]);
            assert("NestGate"@[0] != "Squirrel"@[0]);
        }
        if i == 8 && j == 14 {
            assert("nestgate"@.len() != "sweetgrass"@.len());
            assert("NestGate"@.len() != "sweetGrass"@.len());
        }
        if i == 8 && j == 15 {
            assert("nestgate"@.len() != "toadstool"@.len());
            assert("NestGate"@.len() != "ToadStool"@.len());
        }
        if i == 9 && j == 10 {
            assert("petaltongue"@.len() != "rhizocrypt"@.len());
            assert("petalTongue"@.len() != "rhizoCrypt"@.len());
        }
        if i == 9 && j == 11 {
            assert("petaltongue"@.len() != "songbird"@.len());
            assert("petalTongue"@.len() != "Songbird"@.len());
        }
        if i == 9 && j == 12 {
            assert("petaltongue"@.len() != "sourdough"@.len());
            assert("petalTongue"@.len() != "sourDough"@.len());
        }
        if i == 9 && j == 13 {
            assert("petaltongue"@.len() != "squirrel"@.len());
            assert("petalTongue"@.len() != "Squirrel"@.len());
        }
        if i == 9 && j == 14 {
            assert("petaltongue"@.len() != "sweetgrass"@.len());
            assert("petalTongue"@.len() != "sweetGrass"@.len());
        }
        if i == 9 && j == 15 {
            assert("petaltongue"@.len() != "toadstool"@.len());
            assert("petalTongue"@.len() != "ToadStool"@.len());
        }
        if i == 10 && j == 11 {
            assert("rhizocrypt"@.len() != "songbird"@.len());
            assert("rhizoCrypt"@.len() != "Songbird"@.len());
        }
        if i == 10 && j == 12 {
            assert("rhizocrypt"@.len() != "sourdough"@.len());
            assert("rhizoCrypt"@.len() != "sourDough"@.len());
        }
        if i == 10 && j == 13 {
            assert("rhizocrypt"@.len() != "squirrel"@.len());
            assert("rhizoCrypt"@.len() != "Squirrel"@.len());
        }
        if i == 10 && j == 14 {
            assert("rhizocrypt"@[0] != "sweetgrass"@[0]);
            assert("rhizoCrypt"@[0] != "sweetGrass"@[0]);
        }
        if i == 10 && j == 15 {
            assert("rhizocrypt"@.len() != "toadstool"@.len());
            assert("rhizoCrypt"@.len() != "ToadStool"@.len());
        }
        if i == 11 && j == 12 {
            assert("songbird"@.len() != "sourdough"@.len());
            assert("Songbird"@.len() != "sourDough"@.len());
        }
        if i == 11 && j == 13 {
            assert("songbird"@[1] != "squirrel"@[1]);
            assert("Songbird"@[1] != "Squirrel"@[1]);
        }
        if i == 11 && j == 14 {
            assert("songbird"@.len() != "sweetgrass"@.len());
            assert("Songbird"@.len() != "sweetGrass"@.len());
        }
        if i == 11 && j == 15 {
            assert("songbird"@.len() != "toadstool"@.len());
            assert("Songbird"@.len() != "ToadStool"@.len());
        }
        if i == 12 && j == 13 {
            assert("sourdough"@.len() != "squirrel"@.len());
            assert("sourDough"@.len() != "Squirrel"@.len());
        }
        if i == 12 && j == 14 {
            assert("sourdough"@.len() != "sweetgrass"@.len());
            assert("sourDough"@.len() != "sweetGrass"@.len());
        }
        if i == 12 && j == 15 {
            assert("sourdough"@[0] != "toadstool"@[0]);
            assert("sourDough"@[0] != "ToadStool"@[0]);
        }
        if i == 13 && j == 14 {
            assert("squirrel"@.len() != "sweetgrass"@.len());
            assert("Squirrel"@.len() != "sweetGrass"@.len());
        }
        if i == 13 && j == 15 {
            assert("squirrel"@.len() != "toadstool"@.len());
            assert("Squirrel"@.len() != "ToadStool"@.len());
        }
        if i == 14 && j == 15 {
            assert("sweetgrass"@.len() != "toadstool"@.len());
            assert("sweetGrass"@.len() != "ToadStool"@.len());
        }
    }
}

/// Display names and slugs are inverse on the known primals: the slug of
/// the display name of a known slug is that slug, and the display name of
/// the slug of a known display name is that name.
pub proof fn law_display_slug_round_trip(s: Seq<char>)
    ensures
        is_known_slug(s) ==> slug_of(display_name_of(s)) == s,
        is_known_display(s) ==> display_name_of(slug_of(s)) == s,
{
    lemma_table_distinct();
    let t = primal_table();
    lemma_row_of(t, 0, s);
    lemma_row_of(t, 1, s);
    if is_known_slug(s) {
        let i = row_of(t, 0, s)->0;
        lemma_row_of(t, 1, t[i].1);
        let j = row_of(t, 1, t[i].1)->0;
        if j < i {
            assert(t[j].1 != t[i].1);
        } else if j > i {
            assert(t[i].1 != t[j].1);
        }
    }
    if is_known_display(s) {
        let i = row_of(t, 1, s)->0;
        lemma_row_of(t, 0, t[i].0);
        let j = row_of(t, 0, t[i].0)->0;
        if j < i {
            assert(t[j].0 != t[i].0);
        } else if j > i {
            assert(t[i].0 != t[j].0);
        }
    }
}

/// Names that are neither a known slug nor a known display name pass
/// through both mappings unchanged.
pub proof fn law_unknown_names_pass_through(s: Seq<char>)
    requires
        !is_known_slug(s),
        !is_known_display(s),
    ensures
        display_name_of(s) == s,
        slug_of(s) == s,
{
    lemma_row_of(primal_table(), 0, s);
    lemma_row_of(primal_table(), 1, s);
}

/// The (domain, primal) a socket file stem stands for: a known domain
/// with its default primal; else a known primal with its domain; else the
/// stem for both.
pub open spec fn socket_identity_of(stem: Seq<char>) -> (Seq<char>, Seq<char>) {
    match row_of(domain_table(), 0, stem) {
        Some(i) => domain_table()[i],
        None => match row_of(domain_table(), 1, stem) {
            Some(i) => domain_table()[i],
            None => (stem, stem),
        },
    }
}

/// Resolves a socket file stem to (domain, primal name): first as a
/// domain, then as a primal slug mapped back to its domain, else the stem
/// stands for both.
pub fn socket_identity(stem: &str) -> (r: (String, String))
    ensures
        (r.0@, r.1@) == socket_identity_of(stem@),
{
    let t = domain_table_exec();
    match find_row(&t, 0, stem, Ghost(domain_table())) {
        Some(i) => (String::from_str(t[i].0), String::from_str(t[i].1)),
        None => match find_row(&t, 1, stem, Ghost(domain_table())) {
            Some(i) => (String::from_str(t[i].0), String::from_str(t[i].1)),
            None => (String::from_str(stem), String::from_str(stem)),
        },
    }
}

} // verus!
