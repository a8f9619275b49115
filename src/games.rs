//! Recognising running games from process names and install paths.

use crate::text::{chars_of, find_chars, find_sub};
use vstd::prelude::*;

verus! {

/// A running process that looks like a game.
pub struct DetectedGame {
    pub process_name: String,
    pub pid: u32,
    pub game_name: Option<String>,
    /// Its Steam app id, where it has one.
    pub app_id: Option<u32>,
}

/// A game known by its executable's name (lower case); an app id of 0 means
/// it has none on Steam.
pub struct KnownGame {
    pub process_name: String,
    pub game_name: String,
    pub app_id: u32,
}

pub open spec fn known_view(k: KnownGame) -> (Seq<char>, Seq<char>, u32) {
    (k.process_name@, k.game_name@, k.app_id)
}

pub open spec fn known_games_view(v: Seq<KnownGame>) -> Seq<(Seq<char>, Seq<char>, u32)> {
    v.map_values(|k: KnownGame| known_view(k))
}

/// The games recognised by executable name: executable, game, Steam app id.
pub open spec fn known_games_table() -> Seq<(Seq<char>, Seq<char>, u32)> {
    seq![
        ("gta5.exe"@, "Grand Theft Auto V"@, 271590u32),
        ("gtav.exe"@, "Grand Theft Auto V"@, 271590u32),
        ("eldenring.exe"@, "Elden Ring"@, 1245620u32),
        ("cyberpunk2077.exe"@, "Cyberpunk 2077"@, 1091500u32),
        ("witcher3.exe"@, "The Witcher 3"@, 292030u32),
        ("rdr2.exe"@, "Red Dead Redemption 2"@, 1174180u32),
        ("cs2.exe"@, "Counter-Strike 2"@, 730u32),
        ("csgo.exe"@, "Counter-Strike 2"@, 730u32),
        ("dota2.exe"@, "Dota 2"@, 570u32),
        ("valorant.exe"@, "VALORANT"@, 0u32),
        ("overwatch.exe"@, "Overwatch 2"@, 0u32),
        ("leagueclient.exe"@, "League of Legends"@, 0u32),
        ("league of legends.exe"@, "League of Legends"@, 0u32),
        ("pubg.exe"@, "PUBG: Battlegrounds"@, 578080u32),
        ("tslgame.exe"@, "PUBG: Battlegrounds"@, 578080u32),
        ("fortnite.exe"@, "Fortnite"@, 0u32),
        ("apex_r5apex.exe"@, "Apex Legends"@, 1172470u32),
        ("r5apex.exe"@, "Apex Legends"@, 1172470u32),
        ("terraria.exe"@, "Terraria"@, 105600u32),
        ("rust.exe"@, "Rust"@, 252490u32),
        ("baldursgate3.exe"@, "Baldur's Gate 3"@, 1086940u32),
        ("bg3.exe"@, "Baldur's Gate 3"@, 1086940u32),
        ("hogwartslegacy.exe"@, "Hogwarts Legacy"@, 990080u32),
        ("sekiro.exe"@, "Sekiro: Shadows Die Twice"@, 814380u32),
        ("darksoulsiii.exe"@, "Dark Souls III"@, 374320u32),
        ("monsterhunterworld.exe"@, "Monster Hunter: World"@, 582010u32),
        ("monsterhunterwilds.exe"@, "Monster Hunter Wilds"@, 2246340u32),
        ("fallout4.exe"@, "Fallout 4"@, 377160u32),
        ("starfield.exe"@, "Starfield"@, 1716740u32),
        ("palworld.exe"@, "Palworld"@, 1623730u32),
        ("lethal company.exe"@, "Lethal Company"@, 1966720u32),
        ("satisfactory.exe"@, "Satisfactory"@, 526870u32),
        ("helldivers2.exe"@, "Helldivers 2"@, 553850u32),
        ("arrowhead_hd2.exe"@, "Helldivers 2"@, 553850u32),
        ("doom eternal.exe"@, "DOOM Eternal"@, 782330u32),
        ("forzahorizon5.exe"@, "Forza Horizon 5"@, 1551360u32),
        ("dyinglight.exe"@, "Dying Light"@, 239140u32),
        ("dyinglight2.exe"@, "Dying Light 2"@, 534380u32),
        ("halo infinite.exe"@, "Halo Infinite"@, 1240440u32),
        ("destiny2.exe"@, "Destiny 2"@, 1085660u32),
        ("bf1.exe"@, "Battlefield 1"@, 1238840u32),
        ("bf2042.exe"@, "Battlefield 2042"@, 1517290u32),
        ("nms.exe"@, "No Man's Sky"@, 275850u32),
        ("b1-wukong-win64-shipping.exe"@, "Black Myth: Wukong"@, 2358720u32),
        ("rimworldwin64.exe"@, "RimWorld"@, 294100u32),
        ("factorio.exe"@, "Factorio"@, 427520u32),
        ("subnautica.exe"@, "Subnautica"@, 264710u32),
        ("totalwarhammer3.exe"@, "Total War: Warhammer III"@, 1142710u32),
        ("civilization vi.exe"@, "Civilization VI"@, 289070u32),
        ("stellaris.exe"@, "Stellaris"@, 281990u32),
        ("cities2.exe"@, "Cities: Skylines II"@, 949230u32),
        ("stardewvalley.exe"@, "Stardew Valley"@, 413150u32),
        ("valheim.exe"@, "Valheim"@, 892970u32),
        ("phasmophobia.exe"@, "Phasmophobia"@, 739630u32),
        ("among us.exe"@, "Among Us"@, 945360u32),
        ("deeprock galactic.exe"@, "Deep Rock Galactic"@, 548430u32),
        ("slay the spire.exe"@, "Slay the Spire"@, 646570u32),
        ("hades.exe"@, "Hades"@, 1145360u32),
        ("deadcells.exe"@, "Dead Cells"@, 588650u32),
        ("hollowknight.exe"@, "Hollow Knight"@, 367520u32),
        ("ori.exe"@, "Ori and the Blind Forest"@, 261570u32),
        ("celeste.exe"@, "Celeste"@, 504230u32),
        ("cuphead.exe"@, "Cuphead"@, 268910u32),
    ]
}

fn known_game(process_name: &str, game_name: &str, app_id: u32) -> (r: KnownGame)
    ensures
        known_view(r) == (process_name@, game_name@, app_id),
{
    KnownGame {
        process_name: String::from_str(process_name),
        game_name: String::from_str(game_name),
        app_id,
    }
}

/// The table of known games.
#[verifier::rlimit(100)]
pub fn build_known_games() -> (r: Vec<KnownGame>)
    ensures
        known_games_view(r@) == known_games_table(),
{
    let mut known: Vec<KnownGame> = Vec::new();
    known.push(known_game("gta5.exe", "Grand Theft Auto V", 271590));
    known.push(known_game("gtav.exe", "Grand Theft Auto V", 271590));
    known.push(known_game("eldenring.exe", "Elden Ring", 1245620));
    known.push(known_game("cyberpunk2077.exe", "Cyberpunk 2077", 1091500));
    known.push(known_game("witcher3.exe", "The Witcher 3", 292030));
    known.push(known_game("rdr2.exe", "Red Dead Redemption 2", 1174180));
    known.push(known_game("cs2.exe", "Counter-Strike 2", 730));
    known.push(known_game("csgo.exe", "Counter-Strike 2", 730));
    known.push(known_game("dota2.exe", "Dota 2", 570));
    known.push(known_game("valorant.exe", "VALORANT", 0));
    known.push(known_game("overwatch.exe", "Overwatch 2", 0));
    known.push(known_game("leagueclient.exe", "League of Legends", 0));
    known.push(known_game("league of legends.exe", "League of Legends", 0));
    known.push(known_game("pubg.exe", "PUBG: Battlegrounds", 578080));
    known.push(known_game("tslgame.exe", "PUBG: Battlegrounds", 578080));
    known.push(known_game("fortnite.exe", "Fortnite", 0));
    known.push(known_game("apex_r5apex.exe", "Apex Legends", 1172470));
    known.push(known_game("r5apex.exe", "Apex Legends", 1172470));
    known.push(known_game("terraria.exe", "Terraria", 105600));
    known.push(known_game("rust.exe", "Rust", 252490));
    known.push(known_game("baldursgate3.exe", "Baldur's Gate 3", 1086940));
    known.push(known_game("bg3.exe", "Baldur's Gate 3", 1086940));
    known.push(known_game("hogwartslegacy.exe", "Hogwarts Legacy", 990080));
    known.push(known_game("sekiro.exe", "Sekiro: Shadows Die Twice", 814380));
    known.push(known_game("darksoulsiii.exe", "Dark Souls III", 374320));
    known.push(known_game("monsterhunterworld.exe", "Monster Hunter: World", 582010));
    known.push(known_game("monsterhunterwilds.exe", "Monster Hunter Wilds", 2246340));
    known.push(known_game("fallout4.exe", "Fallout 4", 377160));
    known.push(known_game("starfield.exe", "Starfield", 1716740));
    known.push(known_game("palworld.exe", "Palworld", 1623730));
    known.push(known_game("lethal company.exe", "Lethal Company", 1966720));
    known.push(known_game("satisfactory.exe", "Satisfactory", 526870));
    known.push(known_game("helldivers2.exe", "Helldivers 2", 553850));
    known.push(known_game("arrowhead_hd2.exe", "Helldivers 2", 553850));
    known.push(known_game("doom eternal.exe", "DOOM Eternal", 782330));
    known.push(known_game("forzahorizon5.exe", "Forza Horizon 5", 1551360));
    known.push(known_game("dyinglight.exe", "Dying Light", 239140));
    known.push(known_game("dyinglight2.exe", "Dying Light 2", 534380));
    known.push(known_game("halo infinite.exe", "Halo Infinite", 1240440));
    known.push(known_game("destiny2.exe", "Destiny 2", 1085660));
    known.push(known_game("bf1.exe", "Battlefield 1", 1238840));
    known.push(known_game("bf2042.exe", "Battlefield 2042", 1517290));
    known.push(known_game("nms.exe", "No Man's Sky", 275850));
    known.push(known_game("b1-wukong-win64-shipping.exe", "Black Myth: Wukong", 2358720));
    known.push(known_game("rimworldwin64.exe", "RimWorld", 294100));
    known.push(known_game("factorio.exe", "Factorio", 427520));
    known.push(known_game("subnautica.exe", "Subnautica", 264710));
    known.push(known_game("totalwarhammer3.exe", "Total War: Warhammer III", 1142710));
    known.push(known_game("civilization vi.exe", "Civilization VI", 289070));
    known.push(known_game("stellaris.exe", "Stellaris", 281990));
    known.push(known_game("cities2.exe", "Cities: Skylines II", 949230));
    known.push(known_game("stardewvalley.exe", "Stardew Valley", 413150));
    known.push(known_game("valheim.exe", "Valheim", 892970));
    known.push(known_game("phasmophobia.exe", "Phasmophobia", 739630));
    known.push(known_game("among us.exe", "Among Us", 945360));
    known.push(known_game("deeprock galactic.exe", "Deep Rock Galactic", 548430));
    known.push(known_game("slay the spire.exe", "Slay the Spire", 646570));
    known.push(known_game("hades.exe", "Hades", 1145360));
    known.push(known_game("deadcells.exe", "Dead Cells", 588650));
    known.push(known_game("hollowknight.exe", "Hollow Knight", 367520));
    known.push(known_game("ori.exe", "Ori and the Blind Forest", 261570));
    known.push(known_game("celeste.exe", "Celeste", 504230));
    known.push(known_game("cuphead.exe", "Cuphead", 268910));
    assert(known_games_view(known@) =~= known_games_table());
    known
}

/// Name of the directory below `steamapps/common/` in a path: up to the next
/// `/`, or failing that the next `\\`.
pub open spec fn steam_game_name(path: Seq<char>) -> Option<Seq<char>> {
    let marker = "steamapps/common/"@;
    match find_sub(path, marker) {
        Some(i) => {
            let after = path.skip(i + marker.len());
            match find_sub(after, "/"@) {
                Some(j) => Some(after.take(j)),
                None => match find_sub(after, "\\"@) {
                    Some(j) => Some(after.take(j)),
                    None => None,
                },
            }
        },
        None => None,
    }
}

/// The game directory of a Steam install path, if the path is one.
pub fn extract_steam_game_name(path: &str) -> (r: Option<String>)
    ensures
        r matches Some(n) ==> steam_game_name(path@) == Some(n@),
        r is None ==> steam_game_name(path@) is None,
{
    let cs = chars_of(path);
    let marker = chars_of("steamapps/common/");
    match find_chars(&cs, &marker) {
        None => None,
        Some(i) => {
            proof {
                assert(exists|c: int| crate::text::is_first_occurrence(cs@, marker@, c));
                let c = choose|c: int| crate::text::is_first_occurrence(cs@, marker@, c);
                assert(c == i);
                assert(crate::text::occurs_at(cs@, marker@, i as int));
            }
            let n = cs.len();
            let m = marker.len();
            assert(i + m <= n);
            let start = i + m;
            let after = path.substring_char(start, cs.len());
            let rest = chars_of(after);
            let slash = chars_of("/");
            match find_chars(&rest, &slash) {
                Some(j) => {
                    proof {
                        let c = choose|c: int| crate::text::is_first_occurrence(rest@, slash@, c);
                        assert(c == j);
                    }
                    Some(String::from_str(after.substring_char(0, j)))
                },
                None => {
                    let backslash = chars_of("\\");
                    match find_chars(&rest, &backslash) {
                        Some(j) => {
                            proof {
                                let c = choose|c: int| crate::text::is_first_occurrence(rest@, backslash@, c);
                                assert(c == j);
                            }
                            Some(String::from_str(after.substring_char(0, j)))
                        },
                        None => None,
                    }
                },
            }
        },
    }
}

/// What `str::to_lowercase` makes of a string.
pub uninterp spec fn lower_of(s: Seq<char>) -> Seq<char>;

/// Relies on `str::to_lowercase`: the result depends on the characters alone.
#[verifier::external_body]
fn lowercase(s: &str) -> (r: String)
    ensures
        r@ == lower_of(s@),
{
    s.to_lowercase()
}

/// A running process as the system lists it.
pub struct ProcessEntry {
    pub name: String,
    pub pid: u32,
    pub exe_path: Option<String>,
}

pub open spec fn opt_view(o: Option<String>) -> Option<Seq<char>> {
    match o {
        Some(s) => Some(s@),
        None => None,
    }
}

pub open spec fn process_view(p: ProcessEntry) -> (Seq<char>, u32, Option<Seq<char>>) {
    (p.name@, p.pid, opt_view(p.exe_path))
}

pub open spec fn processes_view(v: Seq<ProcessEntry>) -> Seq<(Seq<char>, u32, Option<Seq<char>>)> {
    v.map_values(|p: ProcessEntry| process_view(p))
}

pub open spec fn game_view(g: DetectedGame) -> (Seq<char>, u32, Option<Seq<char>>, Option<u32>) {
    (g.process_name@, g.pid, opt_view(g.game_name), g.app_id)
}

pub open spec fn games_view(v: Seq<DetectedGame>) -> Seq<(Seq<char>, u32, Option<Seq<char>>, Option<u32>)> {
    v.map_values(|g: DetectedGame| game_view(g))
}

pub open spec fn strings_view(v: Seq<String>) -> Seq<Seq<char>> {
    v.map_values(|s: String| s@)
}

pub open spec fn starts_with(s: Seq<char>, pat: Seq<char>) -> bool {
    crate::text::occurs_at(s, pat, 0)
}

/// Executables (by lower-case name) that are never taken for games.
pub open spec fn is_system_process(exe: Seq<char>) -> bool {
    ||| exe.len() == 0
    ||| starts_with(exe, "system"@)
    ||| starts_with(exe, "svchost"@)
    ||| starts_with(exe, "csrss"@)
    ||| starts_with(exe, "conhost"@)
    ||| exe == "explorer.exe"@
    ||| starts_with(exe, "runtime"@)
}

/// `i` is the first entry of the table for executable `exe`.
pub open spec fn is_first_known(known: Seq<(Seq<char>, Seq<char>, u32)>, exe: Seq<char>, i: int) -> bool {
    &&& 0 <= i < known.len()
    &&& known[i].0 == exe
    &&& forall|j: int| 0 <= j < i ==> known[j].0 != exe
}

/// The table's entry for executable `exe`.
pub open spec fn known_position(known: Seq<(Seq<char>, Seq<char>, u32)>, exe: Seq<char>) -> Option<int> {
    if exists|i: int| is_first_known(known, exe, i) {
        Some(choose|i: int| is_first_known(known, exe, i))
    } else {
        None
    }
}

pub open spec fn app_id_of(id: u32) -> Option<u32> {
    if id > 0 {
        Some(id)
    } else {
        None
    }
}

/// One process looked at: games found so far and the lower-case executable
/// names already reported, before and after.
pub open spec fn scan_one(
    known: Seq<(Seq<char>, Seq<char>, u32)>,
    acc: (Seq<(Seq<char>, u32, Option<Seq<char>>, Option<u32>)>, Seq<Seq<char>>),
    p: (Seq<char>, u32, Option<Seq<char>>),
) -> (Seq<(Seq<char>, u32, Option<Seq<char>>, Option<u32>)>, Seq<Seq<char>>) {
    let exe = lower_of(p.0);
    if is_system_process(exe) {
        acc
    } else {
        let k = known_position(known, exe);
        let first = match k {
            Some(i) => if !acc.1.contains(exe) {
                (
                    acc.0.push((p.0, p.1, Some(known[i].1), app_id_of(known[i].2))),
                    acc.1.push(exe),
                )
            } else {
                acc
            },
            None => acc,
        };
        match p.2 {
            Some(path) => {
                let pl = lower_of(path);
                if find_sub(pl, "steamapps"@) is Some && find_sub(pl, "common"@) is Some
                    && !first.1.contains(exe) && k is None {
                    (first.0.push((p.0, p.1, steam_game_name(pl), None)), first.1.push(exe))
                } else {
                    first
                }
            },
            None => first,
        }
    }
}

/// The games among `procs`, in the order listed, each executable once.
pub open spec fn scan_all(
    known: Seq<(Seq<char>, Seq<char>, u32)>,
    procs: Seq<(Seq<char>, u32, Option<Seq<char>>)>,
) -> (Seq<(Seq<char>, u32, Option<Seq<char>>, Option<u32>)>, Seq<Seq<char>>)
    decreases procs.len(),
{
    if procs.len() == 0 {
        (Seq::empty(), Seq::empty())
    } else {
        scan_one(known, scan_all(known, procs.drop_last()), procs.last())
    }
}

/// Entry `i` of a scan result is process `j`, either known by the table or
/// installed under a Steam library.
pub open spec fn reports_process(
    known: Seq<(Seq<char>, Seq<char>, u32)>,
    procs: Seq<(Seq<char>, u32, Option<Seq<char>>)>,
    acc: (Seq<(Seq<char>, u32, Option<Seq<char>>, Option<u32>)>, Seq<Seq<char>>),
    i: int,
    j: int,
) -> bool {
    let g = acc.0[i];
    let p = procs[j];
    &&& 0 <= j < procs.len()
    &&& g.0 == p.0 && g.1 == p.1
    &&& acc.1[i] == lower_of(p.0)
    &&& match known_position(known, acc.1[i]) {
        Some(k) => g.2 == Some(known[k].1) && g.3 == app_id_of(known[k].2),
        None => g.3 is None && (p.2 matches Some(path) && find_sub(lower_of(path), "steamapps"@)
            is Some && find_sub(lower_of(path), "common"@) is Some),
    }
}

/// Entry `i` of a scan result is some listed process.
pub open spec fn has_report(
    known: Seq<(Seq<char>, Seq<char>, u32)>,
    procs: Seq<(Seq<char>, u32, Option<Seq<char>>)>,
    acc: (Seq<(Seq<char>, u32, Option<Seq<char>>, Option<u32>)>, Seq<Seq<char>>),
    i: int,
) -> bool {
    exists|j: int| #[trigger] reports_process(known, procs, acc, i, j)
}

/// What a scan reports: no system process, each executable at most once, and
/// each entry a listed process that the table knows or that Steam installed.
pub open spec fn scan_well_formed(
    known: Seq<(Seq<char>, Seq<char>, u32)>,
    procs: Seq<(Seq<char>, u32, Option<Seq<char>>)>,
    acc: (Seq<(Seq<char>, u32, Option<Seq<char>>, Option<u32>)>, Seq<Seq<char>>),
) -> bool {
    &&& acc.0.len() == acc.1.len()
    &&& forall|i: int| 0 <= i < acc.1.len() ==> !is_system_process(#[trigger] acc.1[i])
    &&& forall|i: int, l: int| 0 <= i < l < acc.1.len() ==> #[trigger] acc.1[i] != #[trigger] acc.1[l]
    &&& forall|i: int| 0 <= i < acc.0.len() ==> #[trigger] has_report(known, procs, acc, i)
}

/// Every scan is well formed: no system process is reported, no executable
/// twice, and each game is known by name or installed under Steam.
pub proof fn lemma_scan_well_formed(
    known: Seq<(Seq<char>, Seq<char>, u32)>,
    procs: Seq<(Seq<char>, u32, Option<Seq<char>>)>,
)
    ensures
        scan_well_formed(known, procs, scan_all(known, procs)),
    decreases procs.len(),
{
    if procs.len() > 0 {
        let prev = procs.drop_last();
        lemma_scan_well_formed(known, prev);
        let acc = scan_all(known, prev);
        let p = procs.last();
        let n = procs.len() - 1;
        assert(p == procs[n]);
        // earlier witnesses still point at the same processes
        assert forall|i: int| 0 <= i < acc.0.len() implies #[trigger] has_report(known, procs, acc, i) by {
            assert(has_report(known, prev, acc, i));
            let j = choose|j: int| reports_process(known, prev, acc, i, j);
            assert(procs[j] == prev[j]);
            assert(reports_process(known, procs, acc, i, j));
        }
        let exe = lower_of(p.0);
        if !is_system_process(exe) {
            let k = known_position(known, exe);
            let first = match k {
                Some(i) => if !acc.1.contains(exe) {
                    (acc.0.push((p.0, p.1, Some(known[i].1), app_id_of(known[i].2))), acc.1.push(exe))
                } else {
                    acc
                },
                None => acc,
            };
            assert(scan_well_formed(known, procs, acc));
            assert(scan_well_formed(known, procs, first)) by {
                if k is Some && !acc.1.contains(exe) {
                    let ki = k->0;
                    assert(first.0.last() == (p.0, p.1, Some(known[ki].1), app_id_of(known[ki].2)));
                    assert(first.1.last() == exe);
                    assert(reports_process(known, procs, first, acc.0.len() as int, n));
                    assert(first.0.len() == first.1.len());
                    assert forall|i: int| 0 <= i < first.1.len() implies !is_system_process(#[trigger] first.1[i]) by {
                        if i < acc.1.len() {
                            assert(first.1[i] == acc.1[i]);
                        }
                    }
                    assert forall|i: int| 0 <= i < first.0.len() implies #[trigger] has_report(known, procs, first, i) by {
                        if i < acc.0.len() {
                            assert(acc.0[i] == first.0[i] && acc.1[i] == first.1[i]);
                            assert(has_report(known, procs, acc, i));
                            let j = choose|j: int| reports_process(known, procs, acc, i, j);
                            assert(reports_process(known, procs, first, i, j));
                        } else {
                            assert(reports_process(known, procs, first, i, n));
                        }
                    }
                    assert forall|i: int, l: int| 0 <= i < l < first.1.len() implies #[trigger] first.1[i] != #[trigger] first.1[l] by {
                        if l == acc.1.len() {
                            assert(acc.1[i] == first.1[i]);
                            assert(!acc.1.contains(exe));
                        } else {
                            assert(acc.1[i] == first.1[i] && acc.1[l] == first.1[l]);
                        }
                    }
                }
            }
            match p.2 {
                Some(path) => {
                    let pl = lower_of(path);
                    if find_sub(pl, "steamapps"@) is Some && find_sub(pl, "common"@) is Some
                        && !first.1.contains(exe) && k is None {
                        let last = (first.0.push((p.0, p.1, steam_game_name(pl), None)), first.1.push(exe));
                        assert forall|i: int| 0 <= i < last.0.len() implies #[trigger] has_report(known, procs, last, i) by {
                            if i < first.0.len() {
                                assert(first.0[i] == last.0[i] && first.1[i] == last.1[i]);
                                assert(has_report(known, procs, first, i));
                                let j = choose|j: int| reports_process(known, procs, first, i, j);
                                assert(reports_process(known, procs, last, i, j));
                            } else {
                                assert(reports_process(known, procs, last, i, n));
                            }
                        }
                        assert forall|i: int| 0 <= i < last.1.len() implies !is_system_process(#[trigger] last.1[i]) by {
                            if i < first.1.len() {
                                assert(last.1[i] == first.1[i]);
                            }
                        }
                        assert forall|i: int, l: int| 0 <= i < l < last.1.len() implies #[trigger] last.1[i] != #[trigger] last.1[l] by {
                            if l == first.1.len() {
                                assert(first.1[i] == last.1[i]);
                                assert(!first.1.contains(exe));
                            } else {
                                assert(first.1[i] == last.1[i] && first.1[l] == last.1[l]);
                            }
                        }
                    }
                },
                None => {},
            }
        }
    }
}

fn contains_string(v: &Vec<String>, x: &String) -> (r: bool)
    ensures
        r == strings_view(v@).contains(x@),
{
    let mut i: usize = 0;
    while i < v.len()
        invariant
            i <= v.len(),
            forall|j: int| 0 <= j < i ==> v@[j]@ != x@,
        decreases v.len() - i,
    {
        if v[i] == *x {
            assert(strings_view(v@)[i as int] == x@);
            return true;
        }
        i = i + 1;
    }
    assert(!strings_view(v@).contains(x@)) by {
        if strings_view(v@).contains(x@) {
            let j = choose|j: int| 0 <= j < strings_view(v@).len() && strings_view(v@)[j] == x@;
            assert(v@[j]@ == x@);
        }
    }
    false
}

/// The table's entry for executable `exe`.
pub fn find_known(known: &Vec<KnownGame>, exe: &String) -> (r: Option<usize>)
    ensures
        r matches Some(i) ==> known_position(known_games_view(known@), exe@) == Some(i as int),
        r is None ==> known_position(known_games_view(known@), exe@) is None,
{
    let ghost kv = known_games_view(known@);
    let mut i: usize = 0;
    while i < known.len()
        invariant
            i <= known.len(),
            kv == known_games_view(known@),
            forall|j: int| 0 <= j < i ==> kv[j].0 != exe@,
        decreases known.len() - i,
    {
        if known[i].process_name == *exe {
            proof {
                assert(is_first_known(kv, exe@, i as int));
                let c = choose|c: int| is_first_known(kv, exe@, c);
                assert(c == i);
            }
            return Some(i);
        }
        i = i + 1;
    }
    assert(!exists|c: int| is_first_known(kv, exe@, c));
    None
}

fn starts_with_str(cs: &Vec<char>, pat: &str) -> (r: bool)
    ensures
        r == starts_with(cs@, pat@),
{
    let p = chars_of(pat);
    crate::text::occurs_at_index(cs, &p, 0)
}

fn contains_str(cs: &Vec<char>, pat: &str) -> (r: bool)
    ensures
        r == find_sub(cs@, pat@) is Some,
{
    let p = chars_of(pat);
    find_chars(cs, &p).is_some()
}

fn is_system_exe(exe: &String) -> (r: bool)
    ensures
        r == is_system_process(exe@),
{
    let cs = chars_of(exe.as_str());
    let explorer = String::from_str("explorer.exe");
    cs.len() == 0 || starts_with_str(&cs, "system") || starts_with_str(&cs, "svchost")
        || starts_with_str(&cs, "csrss") || starts_with_str(&cs, "conhost") || *exe == explorer
        || starts_with_str(&cs, "runtime")
}

fn scan_process(
    known: &Vec<KnownGame>,
    games: &mut Vec<DetectedGame>,
    seen: &mut Vec<String>,
    p: &ProcessEntry,
)
    ensures
        (games_view(final(games)@), strings_view(final(seen)@)) == scan_one(
            known_games_view(known@),
            (games_view(old(games)@), strings_view(old(seen)@)),
            process_view(*p),
        ),
{
    let ghost kv = known_games_view(known@);
    let exe = lowercase(p.name.as_str());
    if is_system_exe(&exe) {
        return;
    }
    let k = find_known(known, &exe);
    if let Some(i) = k {
        if !contains_string(seen, &exe) {
            let ghost g0 = games_view(games@);
            let g = DetectedGame {
                process_name: p.name.clone(),
                pid: p.pid,
                game_name: Some(known[i].game_name.clone()),
                app_id: if known[i].app_id > 0 {
                    Some(known[i].app_id)
                } else {
                    None
                },
            };
            games.push(g);
            seen.push(exe.clone());
            assert(games_view(games@) =~= g0.push(game_view(g)));
            assert(strings_view(seen@) =~= strings_view(old(seen)@).push(exe@));
            assert(kv[i as int] == known_view(known@[i as int]));
        }
    }
    let ghost mid_games = games_view(games@);
    let ghost mid_seen = strings_view(seen@);
    if let Some(path) = &p.exe_path {
        let pl = lowercase(path.as_str());
        let pcs = chars_of(pl.as_str());
        if contains_str(&pcs, "steamapps") && contains_str(&pcs, "common") && !contains_string(
            seen,
            &exe,
        ) && k.is_none() {
            let g = DetectedGame {
                process_name: p.name.clone(),
                pid: p.pid,
                game_name: extract_steam_game_name(pl.as_str()),
                app_id: None,
            };
            games.push(g);
            seen.push(exe.clone());
            assert(games_view(games@) =~= mid_games.push(game_view(g)));
            assert(strings_view(seen@) =~= mid_seen.push(exe@));
        }
    }
}

/// The games among the running processes, in the order listed, each
/// executable (by lower-case name) reported once: those the table knows, and
/// other executables installed under a Steam library.
pub fn detect_games(procs: &Vec<ProcessEntry>, known: &Vec<KnownGame>) -> (r: Vec<DetectedGame>)
    ensures
        games_view(r@) == scan_all(known_games_view(known@), processes_view(procs@)).0,
        scan_well_formed(
            known_games_view(known@),
            processes_view(procs@),
            scan_all(known_games_view(known@), processes_view(procs@)),
        ),
{
    let mut games: Vec<DetectedGame> = Vec::new();
    let mut seen: Vec<String> = Vec::new();
    let mut i: usize = 0;
    assert(games_view(games@) =~= Seq::empty());
    assert(strings_view(seen@) =~= Seq::empty());
    while i < procs.len()
        invariant
            i <= procs.len(),
            (games_view(games@), strings_view(seen@)) == scan_all(
                known_games_view(known@),
                processes_view(procs@).take(i as int),
            ),
        decreases procs.len() - i,
    {
        scan_process(known, &mut games, &mut seen, &procs[i]);
        assert(processes_view(procs@).take(i + 1).drop_last() =~= processes_view(procs@).take(
            i as int,
        ));
        i = i + 1;
    }
    assert(processes_view(procs@).take(i as int) =~= processes_view(procs@));
    proof {
        lemma_scan_well_formed(known_games_view(known@), processes_view(procs@));
    }
    games
}

/// Positions of the names in `current` that `last` does not hold.
pub open spec fn started_positions(current: Seq<Seq<char>>, last: Seq<Seq<char>>) -> Seq<int>
    decreases current.len(),
{
    if current.len() == 0 {
        Seq::empty()
    } else {
        let before = started_positions(current.drop_last(), last);
        if last.contains(current.last()) {
            before
        } else {
            before.push(current.len() - 1)
        }
    }
}

/// The names in `last` that `current` no longer holds, in order.
pub open spec fn exited_names(last: Seq<Seq<char>>, current: Seq<Seq<char>>) -> Seq<Seq<char>>
    decreases last.len(),
{
    if last.len() == 0 {
        Seq::empty()
    } else {
        let before = exited_names(last.drop_last(), current);
        if current.contains(last.last()) {
            before
        } else {
            before.push(last.last())
        }
    }
}

/// What one periodic scan reports against the previous one.
pub struct ScanChanges {
    /// Positions in this scan's list of the games that were not running before.
    pub started: Vec<usize>,
    /// Process names of the previous scan that are gone now.
    pub exited: Vec<String>,
    /// Process names of this scan, to compare the next scan against.
    pub current: Vec<String>,
}

pub open spec fn detected_names(games: Seq<DetectedGame>) -> Seq<Seq<char>> {
    games.map_values(|g: DetectedGame| g.process_name@)
}

/// Compares a scan with the process names of the previous one.
pub fn scan_changes(last: &Vec<String>, games: &Vec<DetectedGame>) -> (r: ScanChanges)
    ensures
        strings_view(r.current@) == detected_names(games@),
        r.started@.map_values(|i: usize| i as int) == started_positions(
            detected_names(games@),
            strings_view(last@),
        ),
        strings_view(r.exited@) == exited_names(strings_view(last@), detected_names(games@)),
{
    let ghost names = detected_names(games@);
    let ghost lastv = strings_view(last@);
    let mut current: Vec<String> = Vec::new();
    let mut started: Vec<usize> = Vec::new();
    let mut i: usize = 0;
    while i < games.len()
        invariant
            i <= games.len(),
            names == detected_names(games@),
            lastv == strings_view(last@),
            strings_view(current@) == names.take(i as int),
            started@.map_values(|k: usize| k as int) == started_positions(names.take(i as int), lastv),
        decreases games.len() - i,
    {
        let name = games[i].process_name.clone();
        proof {
            assert(names.take(i + 1).drop_last() =~= names.take(i as int));
            assert(names.take(i + 1).last() == name@);
        }
        if !contains_string(last, &name) {
            let ghost before = started@;
            started.push(i);
            assert(started@.map_values(|k: usize| k as int) =~= before.map_values(|k: usize| k as int).push(i as int));
        }
        let ghost cur0 = current@;
        current.push(name);
        assert(strings_view(current@) =~= strings_view(cur0).push(names[i as int]));
        assert(names.take(i + 1) =~= names.take(i as int).push(names[i as int]));
        i = i + 1;
    }
    assert(names.take(i as int) =~= names);
    let mut exited: Vec<String> = Vec::new();
    let mut j: usize = 0;
    while j < last.len()
        invariant
            j <= last.len(),
            lastv == strings_view(last@),
            strings_view(current@) == names,
            strings_view(exited@) == exited_names(lastv.take(j as int), names),
        decreases last.len() - j,
    {
        proof {
            assert(lastv.take(j + 1).drop_last() =~= lastv.take(j as int));
            assert(lastv.take(j + 1).last() == last@[j as int]@);
        }
        if !contains_string(&current, &last[j]) {
            let ghost e0 = exited@;
            exited.push(last[j].clone());
            assert(strings_view(exited@) =~= strings_view(e0).push(last@[j as int]@));
        }
        j = j + 1;
    }
    assert(lastv.take(j as int) =~= lastv);
    ScanChanges { started, exited, current }
}

/// Lexicographic order of character sequences, as `String`'s `<` orders them.
pub open spec fn lex_lt(a: Seq<char>, b: Seq<char>) -> bool
    decreases a.len(),
{
    if a.len() == 0 {
        b.len() > 0
    } else if b.len() == 0 {
        false
    } else if a[0] != b[0] {
        a[0] < b[0]
    } else {
        lex_lt(a.drop_first(), b.drop_first())
    }
}

/// Whether `a` sorts before `b`.
pub fn lex_less(a: &str, b: &str) -> (r: bool)
    ensures
        r == lex_lt(a@, b@),
{
    let x = chars_of(a);
    let y = chars_of(b);
    let mut k: usize = 0;
    assert(x@.skip(0) =~= x@);
    assert(y@.skip(0) =~= y@);
    while k < x.len() && k < y.len() && x[k] == y[k]
        invariant
            k <= x.len(),
            k <= y.len(),
            lex_lt(x@, y@) == lex_lt(x@.skip(k as int), y@.skip(k as int)),
        decreases x.len() - k,
    {
        proof {
            let (xs, ys) = (x@.skip(k as int), y@.skip(k as int));
            assert(xs.drop_first() =~= x@.skip(k + 1));
            assert(ys.drop_first() =~= y@.skip(k + 1));
        }
        k = k + 1;
    }
    if k == x.len() {
        k < y.len()
    } else if k == y.len() {
        false
    } else {
        x[k] < y[k]
    }
}

pub open spec fn pairs_view(v: Seq<(String, String)>) -> Seq<(Seq<char>, Seq<char>)> {
    v.map_values(|p: (String, String)| (p.0@, p.1@))
}

/// Where `name` goes in a listing sorted by name: before the first entry
/// whose name sorts after it.
pub open spec fn insert_position(out: Seq<(Seq<char>, Seq<char>)>, name: Seq<char>) -> int
    decreases out.len(),
{
    if out.len() == 0 || lex_lt(name, out[0].0) {
        0
    } else {
        1 + insert_position(out.drop_first(), name)
    }
}

pub open spec fn lists_name(out: Seq<(Seq<char>, Seq<char>)>, name: Seq<char>) -> bool {
    exists|i: int| 0 <= i < out.len() && #[trigger] out[i].0 == name
}

/// The first `k` table entries listed as (game, executable) sorted by game
/// name, each game once, with the executable the table gives first for it.
pub open spec fn game_listing(known: Seq<(Seq<char>, Seq<char>, u32)>, k: int) -> Seq<(Seq<char>, Seq<char>)>
    decreases k,
{
    if k <= 0 {
        Seq::empty()
    } else {
        let prev = game_listing(known, k - 1);
        let e = (known[k - 1].1, known[k - 1].0);
        if lists_name(prev, e.0) {
            prev
        } else {
            prev.insert(insert_position(prev, e.0), e)
        }
    }
}

proof fn lemma_insert_position_is(out: Seq<(Seq<char>, Seq<char>)>, name: Seq<char>, p: int)
    requires
        0 <= p <= out.len(),
        forall|i: int| 0 <= i < p ==> !lex_lt(name, #[trigger] out[i].0),
        p < out.len() ==> lex_lt(name, out[p].0),
    ensures
        insert_position(out, name) == p,
    decreases out.len(),
{
    if p > 0 {
        assert forall|i: int| 0 <= i < p - 1 implies !lex_lt(name, #[trigger] out.drop_first()[i].0) by {
            assert(out.drop_first()[i] == out[i + 1]);
        }
        assert(!lex_lt(name, out[0].0));
        lemma_insert_position_is(out.drop_first(), name, p - 1);
    }
}

proof fn lemma_lex_total(a: Seq<char>, b: Seq<char>)
    requires
        a != b,
    ensures
        lex_lt(a, b) || lex_lt(b, a),
    decreases a.len(),
{
    if a.len() > 0 && b.len() > 0 && a[0] == b[0] {
        if a.drop_first() == b.drop_first() {
            assert(a =~= seq![a[0]] + a.drop_first());
            assert(b =~= seq![b[0]] + b.drop_first());
        }
        lemma_lex_total(a.drop_first(), b.drop_first());
    } else if a.len() == 0 && b.len() == 0 {
        assert(a =~= b);
    }
}

proof fn lemma_insert_position(out: Seq<(Seq<char>, Seq<char>)>, name: Seq<char>)
    ensures
        0 <= insert_position(out, name) <= out.len(),
        forall|i: int| 0 <= i < insert_position(out, name) ==> !lex_lt(name, #[trigger] out[i].0),
        insert_position(out, name) < out.len() ==> lex_lt(name, out[insert_position(out, name)].0),
    decreases out.len(),
{
    if out.len() > 0 && !lex_lt(name, out[0].0) {
        let rest = out.drop_first();
        lemma_insert_position(rest, name);
        assert forall|i: int| 0 <= i < insert_position(out, name) implies !lex_lt(name, #[trigger] out[i].0) by {
            if i > 0 {
                assert(out[i] == rest[i - 1]);
            }
        }
        if insert_position(out, name) < out.len() {
            assert(out[insert_position(out, name)] == rest[insert_position(rest, name)]);
        }
    }
}

/// Each listing entry's game name sorts strictly before the next one's.
pub open spec fn sorted_by_name(out: Seq<(Seq<char>, Seq<char>)>) -> bool {
    forall|i: int| 0 <= i < out.len() - 1 ==> lex_lt(#[trigger] out[i].0, out[i + 1].0)
}

/// The listing of known games is sorted by game name, each name once.
pub proof fn lemma_game_listing_sorted(known: Seq<(Seq<char>, Seq<char>, u32)>, k: int)
    requires
        0 <= k <= known.len(),
    ensures
        sorted_by_name(game_listing(known, k)),
    decreases k,
{
    if k > 0 {
        lemma_game_listing_sorted(known, k - 1);
        let prev = game_listing(known, k - 1);
        let e = (known[k - 1].1, known[k - 1].0);
        if !lists_name(prev, e.0) {
            let p = insert_position(prev, e.0);
            lemma_insert_position(prev, e.0);
            let nv = prev.insert(p, e);
            if p > 0 {
                assert(prev[p - 1].0 != e.0);
                lemma_lex_total(prev[p - 1].0, e.0);
            }
            assert forall|i: int| 0 <= i < nv.len() - 1 implies lex_lt(#[trigger] nv[i].0, nv[i + 1].0) by {
                if i < p - 1 {
                    assert(nv[i] == prev[i] && nv[i + 1] == prev[i + 1]);
                } else if i == p - 1 {
                    assert(nv[i] == prev[i]);
                } else if i == p {
                    assert(nv[i + 1] == prev[p]);
                } else {
                    assert(nv[i] == prev[i - 1] && nv[i + 1] == prev[i]);
                }
            }
        }
    }
}

fn contains_name(v: &Vec<(String, String)>, x: &String) -> (r: bool)
    ensures
        r == lists_name(pairs_view(v@), x@),
{
    let mut i: usize = 0;
    while i < v.len()
        invariant
            i <= v.len(),
            forall|j: int| 0 <= j < i ==> v@[j].0@ != x@,
        decreases v.len() - i,
    {
        if v[i].0 == *x {
            assert(pairs_view(v@)[i as int].0 == x@);
            return true;
        }
        i = i + 1;
    }
    assert(!lists_name(pairs_view(v@), x@)) by {
        if lists_name(pairs_view(v@), x@) {
            let j = choose|j: int| 0 <= j < v.len() && #[trigger] pairs_view(v@)[j].0 == x@;
            assert(v@[j].0@ == x@);
        }
    }
    false
}

/// The known games for display: (game, executable), sorted by game name, one
/// entry per game, with the executable that the table lists first for it.
pub fn get_known_games() -> (r: Result<Vec<(String, String)>, String>)
    ensures
        r matches Ok(v) && pairs_view(v@) == game_listing(
            known_games_table(),
            known_games_table().len() as int,
        ) && sorted_by_name(pairs_view(v@)),
{
    let known = build_known_games();
    let ghost kv = known_games_view(known@);
    let mut out: Vec<(String, String)> = Vec::new();
    let mut k: usize = 0;
    assert(pairs_view(out@) =~= Seq::empty());
    while k < known.len()
        invariant
            k <= known.len(),
            kv == known_games_view(known@),
            kv == known_games_table(),
            pairs_view(out@) == game_listing(kv, k as int),
        decreases known.len() - k,
    {
        let name = known[k].game_name.clone();
        assert(kv[k as int] == known_view(known@[k as int]));
        if !contains_name(&out, &name) {
            let ghost ov = pairs_view(out@);
            let mut p: usize = 0;
            while p < out.len() && !lex_less(name.as_str(), out[p].0.as_str())
                invariant
                    p <= out.len(),
                    ov == pairs_view(out@),
                    forall|i: int| 0 <= i < p ==> !lex_lt(name@, #[trigger] ov[i].0),
                decreases out.len() - p,
            {
                p = p + 1;
            }
            proof {
                lemma_insert_position_is(ov, name@, p as int);
            }
            let entry = (name.clone(), known[k].process_name.clone());
            out.insert(p, entry);
            assert(pairs_view(out@) =~= ov.insert(p as int, (name@, kv[k as int].0)));
        }
        k = k + 1;
    }
    proof {
        lemma_game_listing_sorted(kv, k as int);
    }
    Ok(out)
}

} // verus!
