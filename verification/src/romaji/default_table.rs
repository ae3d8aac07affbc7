//! The shipped romaji table.
//!
//! `nn`, `n'` and `xn` are ん at once; a lone `n` waits. A doubled consonant is
//! っ and carries the consonant on. Small kana are spelled with `x` or with `l`.

use vstd::prelude::*;

verus! {

/// The shipped table, in the configuration language and in the order of its sequences.
pub const DEFAULT_TABLE: &'static str = "\
[kana]\n\
\",\" = \"、\"\n\
\"-\" = \"ー\"\n\
\".\" = \"。\"\n\
\"/\" = \"・\"\n\
\"[\" = \"「\"\n\
\"]\" = \"」\"\n\
\"a\" = \"あ\"\n\
\"ba\" = \"ば\"\n\
\"bb\" = [\"っ\", \"b\"]\n\
\"be\" = \"べ\"\n\
\"bi\" = \"び\"\n\
\"bo\" = \"ぼ\"\n\
\"bu\" = \"ぶ\"\n\
\"bya\" = \"びゃ\"\n\
\"bye\" = \"びぇ\"\n\
\"byi\" = \"びぃ\"\n\
\"byo\" = \"びょ\"\n\
\"byu\" = \"びゅ\"\n\
\"ca\" = \"か\"\n\
\"cc\" = [\"っ\", \"c\"]\n\
\"ce\" = \"せ\"\n\
\"cha\" = \"ちゃ\"\n\
\"che\" = \"ちぇ\"\n\
\"chi\" = \"ち\"\n\
\"cho\" = \"ちょ\"\n\
\"chu\" = \"ちゅ\"\n\
\"ci\" = \"し\"\n\
\"co\" = \"こ\"\n\
\"cu\" = \"く\"\n\
\"cya\" = \"ちゃ\"\n\
\"cye\" = \"ちぇ\"\n\
\"cyi\" = \"ちぃ\"\n\
\"cyo\" = \"ちょ\"\n\
\"cyu\" = \"ちゅ\"\n\
\"da\" = \"だ\"\n\
\"dd\" = [\"っ\", \"d\"]\n\
\"de\" = \"で\"\n\
\"dha\" = \"でゃ\"\n\
\"dhe\" = \"でぇ\"\n\
\"dhi\" = \"でぃ\"\n\
\"dho\" = \"でょ\"\n\
\"dhu\" = \"でゅ\"\n\
\"di\" = \"ぢ\"\n\
\"do\" = \"ど\"\n\
\"du\" = \"づ\"\n\
\"dwa\" = \"どぁ\"\n\
\"dwe\" = \"どぇ\"\n\
\"dwi\" = \"どぃ\"\n\
\"dwo\" = \"どぉ\"\n\
\"dwu\" = \"どぅ\"\n\
\"dya\" = \"ぢゃ\"\n\
\"dye\" = \"ぢぇ\"\n\
\"dyi\" = \"ぢぃ\"\n\
\"dyo\" = \"ぢょ\"\n\
\"dyu\" = \"ぢゅ\"\n\
\"e\" = \"え\"\n\
\"fa\" = \"ふぁ\"\n\
\"fe\" = \"ふぇ\"\n\
\"ff\" = [\"っ\", \"f\"]\n\
\"fi\" = \"ふぃ\"\n\
\"fo\" = \"ふぉ\"\n\
\"fu\" = \"ふ\"\n\
\"fwa\" = \"ふぁ\"\n\
\"fwe\" = \"ふぇ\"\n\
\"fwi\" = \"ふぃ\"\n\
\"fwo\" = \"ふぉ\"\n\
\"fwu\" = \"ふぅ\"\n\
\"fya\" = \"ふゃ\"\n\
\"fye\" = \"ふぇ\"\n\
\"fyi\" = \"ふぃ\"\n\
\"fyo\" = \"ふょ\"\n\
\"fyu\" = \"ふゅ\"\n\
\"ga\" = \"が\"\n\
\"ge\" = \"げ\"\n\
\"gg\" = [\"っ\", \"g\"]\n\
\"gi\" = \"ぎ\"\n\
\"go\" = \"ご\"\n\
\"gu\" = \"ぐ\"\n\
\"gwa\" = \"ぐぁ\"\n\
\"gwe\" = \"ぐぇ\"\n\
\"gwi\" = \"ぐぃ\"\n\
\"gwo\" = \"ぐぉ\"\n\
\"gwu\" = \"ぐぅ\"\n\
\"gya\" = \"ぎゃ\"\n\
\"gye\" = \"ぎぇ\"\n\
\"gyi\" = \"ぎぃ\"\n\
\"gyo\" = \"ぎょ\"\n\
\"gyu\" = \"ぎゅ\"\n\
\"ha\" = \"は\"\n\
\"he\" = \"へ\"\n\
\"hh\" = [\"っ\", \"h\"]\n\
\"hi\" = \"ひ\"\n\
\"ho\" = \"ほ\"\n\
\"hu\" = \"ふ\"\n\
\"hya\" = \"ひゃ\"\n\
\"hye\" = \"ひぇ\"\n\
\"hyi\" = \"ひぃ\"\n\
\"hyo\" = \"ひょ\"\n\
\"hyu\" = \"ひゅ\"\n\
\"i\" = \"い\"\n\
\"ja\" = \"じゃ\"\n\
\"je\" = \"じぇ\"\n\
\"ji\" = \"じ\"\n\
\"jj\" = [\"っ\", \"j\"]\n\
\"jo\" = \"じょ\"\n\
\"ju\" = \"じゅ\"\n\
\"jya\" = \"じゃ\"\n\
\"jye\" = \"じぇ\"\n\
\"jyi\" = \"じぃ\"\n\
\"jyo\" = \"じょ\"\n\
\"jyu\" = \"じゅ\"\n\
\"ka\" = \"か\"\n\
\"ke\" = \"け\"\n\
\"ki\" = \"き\"\n\
\"kk\" = [\"っ\", \"k\"]\n\
\"ko\" = \"こ\"\n\
\"ku\" = \"く\"\n\
\"kwa\" = \"くぁ\"\n\
\"kwe\" = \"くぇ\"\n\
\"kwi\" = \"くぃ\"\n\
\"kwo\" = \"くぉ\"\n\
\"kwu\" = \"くぅ\"\n\
\"kya\" = \"きゃ\"\n\
\"kye\" = \"きぇ\"\n\
\"kyi\" = \"きぃ\"\n\
\"kyo\" = \"きょ\"\n\
\"kyu\" = \"きゅ\"\n\
\"la\" = \"ぁ\"\n\
\"le\" = \"ぇ\"\n\
\"li\" = \"ぃ\"\n\
\"lka\" = \"ヵ\"\n\
\"lke\" = \"ヶ\"\n\
\"lo\" = \"ぉ\"\n\
\"ltsu\" = \"っ\"\n\
\"ltu\" = \"っ\"\n\
\"lu\" = \"ぅ\"\n\
\"lwa\" = \"ゎ\"\n\
\"lya\" = \"ゃ\"\n\
\"lye\" = \"ぇ\"\n\
\"lyi\" = \"ぃ\"\n\
\"lyo\" = \"ょ\"\n\
\"lyu\" = \"ゅ\"\n\
\"ma\" = \"ま\"\n\
\"me\" = \"め\"\n\
\"mi\" = \"み\"\n\
\"mm\" = [\"っ\", \"m\"]\n\
\"mo\" = \"も\"\n\
\"mu\" = \"む\"\n\
\"mya\" = \"みゃ\"\n\
\"mye\" = \"みぇ\"\n\
\"myi\" = \"みぃ\"\n\
\"myo\" = \"みょ\"\n\
\"myu\" = \"みゅ\"\n\
\"n\" = \"ん\"\n\
\"n'\" = \"ん\"\n\
\"na\" = \"な\"\n\
\"ne\" = \"ね\"\n\
\"ni\" = \"に\"\n\
\"nn\" = \"ん\"\n\
\"no\" = \"の\"\n\
\"nu\" = \"ぬ\"\n\
\"nya\" = \"にゃ\"\n\
\"nye\" = \"にぇ\"\n\
\"nyi\" = \"にぃ\"\n\
\"nyo\" = \"にょ\"\n\
\"nyu\" = \"にゅ\"\n\
\"o\" = \"お\"\n\
\"pa\" = \"ぱ\"\n\
\"pe\" = \"ぺ\"\n\
\"pi\" = \"ぴ\"\n\
\"po\" = \"ぽ\"\n\
\"pp\" = [\"っ\", \"p\"]\n\
\"pu\" = \"ぷ\"\n\
\"pya\" = \"ぴゃ\"\n\
\"pye\" = \"ぴぇ\"\n\
\"pyi\" = \"ぴぃ\"\n\
\"pyo\" = \"ぴょ\"\n\
\"pyu\" = \"ぴゅ\"\n\
\"ra\" = \"ら\"\n\
\"re\" = \"れ\"\n\
\"ri\" = \"り\"\n\
\"ro\" = \"ろ\"\n\
\"rr\" = [\"っ\", \"r\"]\n\
\"ru\" = \"る\"\n\
\"rya\" = \"りゃ\"\n\
\"rye\" = \"りぇ\"\n\
\"ryi\" = \"りぃ\"\n\
\"ryo\" = \"りょ\"\n\
\"ryu\" = \"りゅ\"\n\
\"sa\" = \"さ\"\n\
\"se\" = \"せ\"\n\
\"sha\" = \"しゃ\"\n\
\"she\" = \"しぇ\"\n\
\"shi\" = \"し\"\n\
\"sho\" = \"しょ\"\n\
\"shu\" = \"しゅ\"\n\
\"si\" = \"し\"\n\
\"so\" = \"そ\"\n\
\"ss\" = [\"っ\", \"s\"]\n\
\"su\" = \"す\"\n\
\"swa\" = \"すぁ\"\n\
\"swe\" = \"すぇ\"\n\
\"swi\" = \"すぃ\"\n\
\"swo\" = \"すぉ\"\n\
\"swu\" = \"すぅ\"\n\
\"sya\" = \"しゃ\"\n\
\"sye\" = \"しぇ\"\n\
\"syi\" = \"しぃ\"\n\
\"syo\" = \"しょ\"\n\
\"syu\" = \"しゅ\"\n\
\"ta\" = \"た\"\n\
\"te\" = \"て\"\n\
\"tha\" = \"てゃ\"\n\
\"the\" = \"てぇ\"\n\
\"thi\" = \"てぃ\"\n\
\"tho\" = \"てょ\"\n\
\"thu\" = \"てゅ\"\n\
\"ti\" = \"ち\"\n\
\"to\" = \"と\"\n\
\"tsa\" = \"つぁ\"\n\
\"tse\" = \"つぇ\"\n\
\"tsi\" = \"つぃ\"\n\
\"tso\" = \"つぉ\"\n\
\"tsu\" = \"つ\"\n\
\"tt\" = [\"っ\", \"t\"]\n\
\"tu\" = \"つ\"\n\
\"twa\" = \"とぁ\"\n\
\"twe\" = \"とぇ\"\n\
\"twi\" = \"とぃ\"\n\
\"two\" = \"とぉ\"\n\
\"twu\" = \"とぅ\"\n\
\"tya\" = \"ちゃ\"\n\
\"tye\" = \"ちぇ\"\n\
\"tyi\" = \"ちぃ\"\n\
\"tyo\" = \"ちょ\"\n\
\"tyu\" = \"ちゅ\"\n\
\"u\" = \"う\"\n\
\"va\" = \"ゔぁ\"\n\
\"ve\" = \"ゔぇ\"\n\
\"vi\" = \"ゔぃ\"\n\
\"vo\" = \"ゔぉ\"\n\
\"vu\" = \"ゔ\"\n\
\"vv\" = [\"っ\", \"v\"]\n\
\"vya\" = \"ゔゃ\"\n\
\"vye\" = \"ゔぇ\"\n\
\"vyi\" = \"ゔぃ\"\n\
\"vyo\" = \"ゔょ\"\n\
\"vyu\" = \"ゔゅ\"\n\
\"wa\" = \"わ\"\n\
\"we\" = \"うぇ\"\n\
\"wha\" = \"うぁ\"\n\
\"whe\" = \"うぇ\"\n\
\"whi\" = \"うぃ\"\n\
\"who\" = \"うぉ\"\n\
\"whu\" = \"う\"\n\
\"wi\" = \"うぃ\"\n\
\"wo\" = \"を\"\n\
\"wu\" = \"う\"\n\
\"ww\" = [\"っ\", \"w\"]\n\
\"xa\" = \"ぁ\"\n\
\"xe\" = \"ぇ\"\n\
\"xi\" = \"ぃ\"\n\
\"xka\" = \"ヵ\"\n\
\"xke\" = \"ヶ\"\n\
\"xn\" = \"ん\"\n\
\"xo\" = \"ぉ\"\n\
\"xtsu\" = \"っ\"\n\
\"xtu\" = \"っ\"\n\
\"xu\" = \"ぅ\"\n\
\"xwa\" = \"ゎ\"\n\
\"xya\" = \"ゃ\"\n\
\"xye\" = \"ぇ\"\n\
\"xyi\" = \"ぃ\"\n\
\"xyo\" = \"ょ\"\n\
\"xyu\" = \"ゅ\"\n\
\"ya\" = \"や\"\n\
\"ye\" = \"いぇ\"\n\
\"yi\" = \"い\"\n\
\"yo\" = \"よ\"\n\
\"yu\" = \"ゆ\"\n\
\"yy\" = [\"っ\", \"y\"]\n\
\"za\" = \"ざ\"\n\
\"ze\" = \"ぜ\"\n\
\"zi\" = \"じ\"\n\
\"zo\" = \"ぞ\"\n\
\"zu\" = \"ず\"\n\
\"zya\" = \"じゃ\"\n\
\"zye\" = \"じぇ\"\n\
\"zyi\" = \"じぃ\"\n\
\"zyo\" = \"じょ\"\n\
\"zyu\" = \"じゅ\"\n\
\"zz\" = [\"っ\", \"z\"]\n\
";

} // verus!
