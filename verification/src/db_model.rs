use vstd::prelude::*;

use crate::role_model::RoleCombinator;

verus! {

/// A known player. Linked game accounts are the `LeagueAccount` rows whose
/// `user_id` equals `id`; `has_accounts` mirrors whether any such row exists.
pub struct User {
    pub id: i32,
    pub snowflake: String,
    pub username: String,
    pub last_score_update_timestamp: i64,
    pub last_rank_update_timestamp: i64,
    pub last_account_update_timestamp: i64,
    pub treat_as_unranked: bool,
    pub ignore: bool,
    pub has_accounts: bool,
}

/// Mastery statistics of one user on one champion; unique per
/// `(user_id, champion_id)`.
pub struct UserChampionStat {
    pub id: i32,
    pub user_id: i32,
    pub champion_id: i32,
    pub level: i32,
    pub score: i32,
}

/// The ranked tier a user holds in one queue; at most one row per
/// `(user_id, queue)`, and absence means unranked.
pub struct UserRank {
    pub id: i32,
    pub user_id: i32,
    pub queue: String,
    pub tier: String,
}

/// One append-only time-series point: the change of a user's mastery score
/// on one champion, together with the new score.
pub struct UserMasteryDelta {
    pub id: i32,
    pub user_id: i32,
    pub champion_id: i32,
    pub delta: i32,
    pub value: i32,
    pub timestamp: i64,
}

/// A chat-platform server that has roles configured.
pub struct Server {
    pub id: i32,
    pub snowflake: String,
    pub name: String,
    pub announcement_channel: Option<String>,
    pub nickname_pattern: String,
}

/// A server a user is a member of, together with the mirrored membership
/// state: the role snowflakes the user currently holds and their nickname.
pub struct ServerAndUserPresence {
    pub server: Server,
    pub roles: Vec<String>,
    pub nickname: Option<String>,
}

/// A role that can be assigned. An empty or non-numeric `snowflake` means the
/// role is disabled and must be skipped during reconciliation.
pub struct Role {
    pub id: i32,
    pub name: String,
    pub snowflake: String,
    pub announce: bool,
    pub combinator: RoleCombinator,
}

/// A game account linked to a user.
pub struct LeagueAccount {
    pub id: i32,
    pub user_id: i32,
    pub username: String,
    pub region: String,
    pub summoner_id: String,
    pub account_id: String,
    pub puuid: String,
    pub tft_summoner_id: String,
    pub tft_account_id: String,
    pub riot_id_game_name: Option<String>,
    pub riot_id_tagline: Option<String>,
    pub primary: bool,
    pub include_region: bool,
}

impl LeagueAccount {
    /// The region of this account in the upstream API's spelling: the stored
    /// region, upper-cased, with the handful of renamed platforms mapped to
    /// their current names.
    pub fn normalized_region(&self) -> (r: String)
        ensures
            r@ == spec_normalized_region(self.region@),
    {
        let upper = ascii_upper(self.region.as_str());
        if crate::strings::str_eq(upper.as_str(), "PH") {
            "PH2".to_owned()
        } else if crate::strings::str_eq(upper.as_str(), "SG") {
            "SG2".to_owned()
        } else if crate::strings::str_eq(upper.as_str(), "TH") {
            "TH2".to_owned()
        } else if crate::strings::str_eq(upper.as_str(), "TW") {
            "TW2".to_owned()
        } else if crate::strings::str_eq(upper.as_str(), "VN") {
            "VN2".to_owned()
        } else {
            upper
        }
    }
}

/// ASCII upper-casing of one character; other characters stay as they are.
pub open spec fn spec_ascii_upper_char(c: char) -> char {
    if 'a' <= c <= 'z' {
        ((c as u8) - 0x20) as char
    } else {
        c
    }
}

/// `spec_ascii_upper_char` applied to every character.
pub open spec fn spec_ascii_upper(s: Seq<char>) -> Seq<char> {
    s.map_values(|c: char| spec_ascii_upper_char(c))
}

/// The region spelling used for upstream calls.
pub open spec fn spec_normalized_region(region: Seq<char>) -> Seq<char> {
    let upper = spec_ascii_upper(region);
    if upper == "PH"@ {
        "PH2"@
    } else if upper == "SG"@ {
        "SG2"@
    } else if upper == "TH"@ {
        "TH2"@
    } else if upper == "TW"@ {
        "TW2"@
    } else if upper == "VN"@ {
        "VN2"@
    } else {
        upper
    }
}

/// Upper-cases the ASCII letters of a string.
pub fn ascii_upper(s: &str) -> (r: String)
    ensures
        r@ == spec_ascii_upper(s@),
{
    let n: usize = s.unicode_len();
    let mut out: String = String::new();
    let mut i: usize = 0;
    while i < n
        invariant
            n == s@.len(),
            0 <= i <= n,
            out@ =~= spec_ascii_upper(s@).take(i as int),
        decreases n - i,
    {
        let c: char = s.get_char(i);
        let piece: &str = match c {
            'a' => "A",
            'b' => "B",
            'c' => "C",
            'd' => "D",
            'e' => "E",
            'f' => "F",
            'g' => "G",
            'h' => "H",
            'i' => "I",
            'j' => "J",
            'k' => "K",
            'l' => "L",
            'm' => "M",
            'n' => "N",
            'o' => "O",
            'p' => "P",
            'q' => "Q",
            'r' => "R",
            's' => "S",
            't' => "T",
            'u' => "U",
            'v' => "V",
            'w' => "W",
            'x' => "X",
            'y' => "Y",
            'z' => "Z",
            _ => {
                let single: &str = s.substring_char(i, i + 1);
                single
            },
        };
        proof {
            reveal_strlit("A");
            reveal_strlit("B");
            reveal_strlit("C");
            reveal_strlit("D");
            reveal_strlit("E");
            reveal_strlit("F");
            reveal_strlit("G");
            reveal_strlit("H");
            reveal_strlit("I");
            reveal_strlit("J");
            reveal_strlit("K");
            reveal_strlit("L");
            reveal_strlit("M");
            reveal_strlit("N");
            reveal_strlit("O");
            reveal_strlit("P");
            reveal_strlit("Q");
            reveal_strlit("R");
            reveal_strlit("S");
            reveal_strlit("T");
            reveal_strlit("U");
            reveal_strlit("V");
            reveal_strlit("W");
            reveal_strlit("X");
            reveal_strlit("Y");
            reveal_strlit("Z");
            assert(piece@ =~= seq![spec_ascii_upper_char(s@[i as int])]);
            assert(spec_ascii_upper(s@).take(i as int + 1) =~= spec_ascii_upper(s@).take(i as int)
                + seq![spec_ascii_upper_char(s@[i as int])]);
        }
        out.append(piece);
        i = i + 1;
    }
    proof {
        assert(spec_ascii_upper(s@).take(n as int) =~= spec_ascii_upper(s@));
    }
    out
}

} // verus!
