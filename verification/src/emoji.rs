//! The bot's custom emoji, written as Discord renders them in messages.

use vstd::prelude::*;

verus! {

/// The `:floof:` custom emoji, in Discord message syntax.
pub const FLOOF: &'static str = "<:floof:1432623984276537404>";

/// The `:floofAngry:` custom emoji, in Discord message syntax.
pub const FLOOF_ANGRY: &'static str = "<:floofAngry:1432623982078591046>";

/// The `:floofBlep:` custom emoji, in Discord message syntax.
pub const FLOOF_BLEP: &'static str = "<:floofBlep:1432623980035965078>";

/// The `:floofCat:` custom emoji, in Discord message syntax.
pub const FLOOF_CAT: &'static str = "<:floofCat:1432623978005921852>";

/// The `:floofCool:` custom emoji, in Discord message syntax.
pub const FLOOF_COOL: &'static str = "<:floofCool:1432623975518830652>";

/// The `:floofCry:` custom emoji, in Discord message syntax.
pub const FLOOF_CRY: &'static str = "<:floofCry:1432623973606359080>";

/// The `:floofDrool:` custom emoji, in Discord message syntax.
pub const FLOOF_DROOL: &'static str = "<:floofDrool:1432623971689435217>";

/// The `:floofHappy:` custom emoji, in Discord message syntax.
pub const FLOOF_HAPPY: &'static str = "<:floofHappy:1432623969550204968>";

/// The `:floofHeart:` custom emoji, in Discord message syntax.
pub const FLOOF_HEART: &'static str = "<:floofHeart:1432623965339259000>";

/// The `:floofInnocent:` custom emoji, in Discord message syntax.
pub const FLOOF_INNOCENT: &'static str = "<:floofInnocent:1432623963086913607>";

/// The `:floofLoad:` custom emoji, in Discord message syntax.
pub const FLOOF_LOAD: &'static str = "<:floofLoad:1432623960591433758>";

/// The `:floofLoadAnimated:` custom emoji (animated), in Discord message syntax.
pub const FLOOF_LOAD_ANIMATED: &'static str = "<a:floofLoadAnimated:1432623912293896262>";

/// The `:floofLol:` custom emoji, in Discord message syntax.
pub const FLOOF_LOL: &'static str = "<:floofLol:1432623957365751898>";

/// The `:floofLurk:` custom emoji, in Discord message syntax.
pub const FLOOF_LURK: &'static str = "<:floofLurk:1432623954438131742>";

/// The `:floofMischief:` custom emoji, in Discord message syntax.
pub const FLOOF_MISCHIEF: &'static str = "<:floofMischief:1432623952009760808>";

/// The `:floofMug:` custom emoji, in Discord message syntax.
pub const FLOOF_MUG: &'static str = "<:floofMug:1432623949023416390>";

/// The `:floofNervous:` custom emoji, in Discord message syntax.
pub const FLOOF_NERVOUS: &'static str = "<:floofNervous:1432623946121089095>";

/// The `:floofNom:` custom emoji, in Discord message syntax.
pub const FLOOF_NOM: &'static str = "<:floofNom:1432623943453245460>";

/// The `:floofOwo:` custom emoji, in Discord message syntax.
pub const FLOOF_OWO: &'static str = "<:floofOwo:1432623941578522697>";

/// The `:floofPat:` custom emoji, in Discord message syntax.
pub const FLOOF_PAT: &'static str = "<:floofPat:1432623937899986964>";

/// The `:floofPeek:` custom emoji, in Discord message syntax.
pub const FLOOF_PEEK: &'static str = "<:floofPeek:1432623935232413766>";

/// The `:floofPlead:` custom emoji, in Discord message syntax.
pub const FLOOF_PLEAD: &'static str = "<:floofPlead:1432623931889549323>";

/// The `:floofSad:` custom emoji, in Discord message syntax.
pub const FLOOF_SAD: &'static str = "<:floofSad:1432623930450903150>";

/// The `:floofScared:` custom emoji, in Discord message syntax.
pub const FLOOF_SCARED: &'static str = "<:floofScared:1432623927212900443>";

/// The `:floofTeehee:` custom emoji, in Discord message syntax.
pub const FLOOF_TEEHEE: &'static str = "<:floofTeehee:1432623925279457321>";

/// The `:floofTired:` custom emoji, in Discord message syntax.
pub const FLOOF_TIRED: &'static str = "<:floofTired:1432623921622159493>";

/// The `:floofSmug:` custom emoji, in Discord message syntax.
pub const FLOOF_SMUG: &'static str = "<:floofSmug:1432623919696969788>";

/// The `:floofSplode:` custom emoji (animated), in Discord message syntax.
pub const FLOOF_SPLODE: &'static str = "<a:floofSplode:1432623909441900585>";

/// The `:floofWhat:` custom emoji, in Discord message syntax.
pub const FLOOF_WHAT: &'static str = "<:floofWhat:1432623917536641144>";

/// The `:floofWoozy:` custom emoji, in Discord message syntax.
pub const FLOOF_WOOZY: &'static str = "<:floofWoozy:1432623915590750270>";

/// The `:iAmTheLaw:` custom emoji, in Discord message syntax.
pub const I_AM_THE_LAW: &'static str = "<:iAmTheLaw:1432623913942388816>";

} // verus!
