//! The shipped key maps. In each section named keys go before characters, and keys are
//! in the order of their numbers.

use vstd::prelude::*;

verus! {

/// The keys of Microsoft IME, in the configuration language.
pub const MS_IME_PRESET: &'static str = "\
[global]\n\
\"muhenkan\" = \"mode_kana_cycle\"\n\
\"shift+muhenkan\" = \"mode_alnum_width_toggle\"\n\
\"kana_mode\" = \"mode_hiragana\"\n\
\"shift+kana_mode\" = \"mode_katakana\"\n\
\"hankaku_zenkaku\" = \"ime_toggle\"\n\
\"caps_lock\" = \"mode_alnum_toggle\"\n\
\"shift+caps_lock\" = \"mode_katakana\"\n\
\"ctrl+caps_lock\" = \"mode_hiragana\"\n\
\"alt+`\" = \"ime_toggle\"\n\
\n\
[idle]\n\
\"ctrl+backspace\" = \"undo_commit\"\n\
\"henkan\" = \"reconvert\"\n\
\n\
[composing]\n\
\"space\" = \"convert\"\n\
\"shift+space\" = \"convert\"\n\
\"enter\" = \"commit\"\n\
\"shift+enter\" = \"commit_first\"\n\
\"escape\" = \"cancel\"\n\
\"backspace\" = \"delete_back\"\n\
\"shift+backspace\" = \"delete_back\"\n\
\"delete\" = \"delete_forward\"\n\
\"tab\" = \"predict_next\"\n\
\"shift+tab\" = \"predict_prev\"\n\
\"left\" = \"caret_left\"\n\
\"right\" = \"caret_right\"\n\
\"up\" = \"predict_prev\"\n\
\"down\" = \"predict_next\"\n\
\"home\" = \"caret_home\"\n\
\"end\" = \"caret_end\"\n\
\"page_up\" = \"swallow\"\n\
\"page_down\" = \"swallow\"\n\
\"henkan\" = \"convert\"\n\
\"f6\" = \"transform_hiragana\"\n\
\"f7\" = \"transform_katakana\"\n\
\"f8\" = \"transform_half_katakana\"\n\
\"f9\" = \"transform_full_alnum\"\n\
\"f10\" = \"transform_half_alnum\"\n\
\"ctrl+i\" = \"transform_katakana\"\n\
\"ctrl+o\" = \"transform_half_katakana\"\n\
\"ctrl+p\" = \"transform_full_alnum\"\n\
\"ctrl+t\" = \"transform_half_alnum\"\n\
\"ctrl+u\" = \"transform_hiragana\"\n\
\n\
[converting]\n\
\"space\" = \"candidate_next\"\n\
\"shift+space\" = \"candidate_prev\"\n\
\"enter\" = \"commit\"\n\
\"escape\" = \"cancel\"\n\
\"backspace\" = \"cancel\"\n\
\"shift+backspace\" = \"cancel\"\n\
\"delete\" = \"swallow\"\n\
\"ctrl+delete\" = \"swallow\"\n\
\"tab\" = \"candidate_expand\"\n\
\"shift+tab\" = \"swallow\"\n\
\"left\" = \"segment_prev\"\n\
\"shift+left\" = \"segment_shrink\"\n\
\"right\" = \"segment_next\"\n\
\"shift+right\" = \"segment_grow\"\n\
\"up\" = \"candidate_prev\"\n\
\"down\" = \"candidate_next\"\n\
\"home\" = \"segment_home\"\n\
\"end\" = \"segment_end\"\n\
\"page_up\" = \"candidate_page_up\"\n\
\"page_down\" = \"candidate_page_down\"\n\
\"henkan\" = \"candidate_next\"\n\
\"shift+henkan\" = \"candidate_prev\"\n\
\"f6\" = \"transform_hiragana\"\n\
\"f7\" = \"transform_katakana\"\n\
\"f8\" = \"transform_half_katakana\"\n\
\"f9\" = \"transform_full_alnum\"\n\
\"f10\" = \"transform_half_alnum\"\n\
\"1\" = \"candidate_1\"\n\
\"2\" = \"candidate_2\"\n\
\"3\" = \"candidate_3\"\n\
\"4\" = \"candidate_4\"\n\
\"5\" = \"candidate_5\"\n\
\"6\" = \"candidate_6\"\n\
\"7\" = \"candidate_7\"\n\
\"8\" = \"candidate_8\"\n\
\"9\" = \"candidate_9\"\n\
\"ctrl+i\" = \"transform_katakana\"\n\
\"ctrl+o\" = \"transform_half_katakana\"\n\
\"ctrl+p\" = \"transform_full_alnum\"\n\
\"ctrl+t\" = \"transform_half_alnum\"\n\
\"ctrl+u\" = \"transform_hiragana\"\n\
\n\
[predicting]\n\
\"space\" = \"convert\"\n\
\"shift+space\" = \"convert\"\n\
\"enter\" = \"commit\"\n\
\"shift+enter\" = \"commit_first\"\n\
\"escape\" = \"cancel\"\n\
\"backspace\" = \"delete_back\"\n\
\"shift+backspace\" = \"delete_back\"\n\
\"delete\" = \"delete_forward\"\n\
\"ctrl+delete\" = \"delete_prediction_history\"\n\
\"tab\" = \"predict_next\"\n\
\"shift+tab\" = \"predict_prev\"\n\
\"left\" = \"caret_left\"\n\
\"right\" = \"caret_right\"\n\
\"up\" = \"predict_prev\"\n\
\"down\" = \"predict_next\"\n\
\"home\" = \"caret_home\"\n\
\"end\" = \"caret_end\"\n\
\"page_up\" = \"candidate_page_up\"\n\
\"page_down\" = \"candidate_page_down\"\n\
\"henkan\" = \"convert\"\n\
\"f6\" = \"transform_hiragana\"\n\
\"f7\" = \"transform_katakana\"\n\
\"f8\" = \"transform_half_katakana\"\n\
\"f9\" = \"transform_full_alnum\"\n\
\"f10\" = \"transform_half_alnum\"\n\
\"1\" = \"candidate_1\"\n\
\"2\" = \"candidate_2\"\n\
\"3\" = \"candidate_3\"\n\
\"4\" = \"candidate_4\"\n\
\"5\" = \"candidate_5\"\n\
\"6\" = \"candidate_6\"\n\
\"7\" = \"candidate_7\"\n\
\"8\" = \"candidate_8\"\n\
\"9\" = \"candidate_9\"\n\
";

/// The keys of ATOK, in the configuration language. They say for each state what
/// 無変換 does, and move between segments with Shift.
pub const ATOK_PRESET: &'static str = "\
[global]\n\
\"shift+muhenkan\" = \"mode_alnum_width_toggle\"\n\
\"kana_mode\" = \"mode_hiragana\"\n\
\"shift+kana_mode\" = \"mode_katakana\"\n\
\"hankaku_zenkaku\" = \"ime_toggle\"\n\
\"caps_lock\" = \"mode_alnum_toggle\"\n\
\"shift+caps_lock\" = \"mode_katakana\"\n\
\"ctrl+caps_lock\" = \"mode_hiragana\"\n\
\"alt+`\" = \"ime_toggle\"\n\
\n\
[idle]\n\
\"ctrl+backspace\" = \"undo_commit\"\n\
\"henkan\" = \"reconvert\"\n\
\"muhenkan\" = \"mode_kana_cycle\"\n\
\n\
[composing]\n\
\"space\" = \"convert\"\n\
\"shift+space\" = \"convert\"\n\
\"enter\" = \"commit\"\n\
\"shift+enter\" = \"commit_first\"\n\
\"escape\" = \"cancel\"\n\
\"backspace\" = \"delete_back\"\n\
\"shift+backspace\" = \"delete_back\"\n\
\"delete\" = \"delete_forward\"\n\
\"tab\" = \"predict_next\"\n\
\"shift+tab\" = \"predict_prev\"\n\
\"left\" = \"caret_left\"\n\
\"right\" = \"caret_right\"\n\
\"up\" = \"predict_prev\"\n\
\"down\" = \"predict_next\"\n\
\"home\" = \"caret_home\"\n\
\"end\" = \"caret_end\"\n\
\"page_up\" = \"swallow\"\n\
\"page_down\" = \"swallow\"\n\
\"henkan\" = \"convert\"\n\
\"muhenkan\" = \"mode_kana_cycle\"\n\
\"f6\" = \"transform_hiragana\"\n\
\"f7\" = \"transform_katakana\"\n\
\"f8\" = \"transform_half_katakana\"\n\
\"f9\" = \"transform_full_alnum\"\n\
\"f10\" = \"transform_half_alnum\"\n\
\"ctrl+i\" = \"transform_katakana\"\n\
\"ctrl+o\" = \"transform_half_katakana\"\n\
\"ctrl+p\" = \"transform_full_alnum\"\n\
\"ctrl+t\" = \"transform_half_alnum\"\n\
\"ctrl+u\" = \"transform_hiragana\"\n\
\n\
[converting]\n\
\"space\" = \"candidate_next\"\n\
\"shift+space\" = \"candidate_prev\"\n\
\"enter\" = \"commit\"\n\
\"escape\" = \"cancel\"\n\
\"backspace\" = \"cancel\"\n\
\"shift+backspace\" = \"cancel\"\n\
\"delete\" = \"swallow\"\n\
\"ctrl+delete\" = \"swallow\"\n\
\"tab\" = \"candidate_next\"\n\
\"shift+tab\" = \"candidate_prev\"\n\
\"left\" = \"segment_shrink\"\n\
\"shift+left\" = \"segment_prev\"\n\
\"right\" = \"segment_grow\"\n\
\"shift+right\" = \"segment_next\"\n\
\"up\" = \"candidate_prev\"\n\
\"down\" = \"candidate_next\"\n\
\"home\" = \"segment_home\"\n\
\"end\" = \"segment_end\"\n\
\"page_up\" = \"candidate_page_up\"\n\
\"page_down\" = \"candidate_page_down\"\n\
\"henkan\" = \"candidate_next\"\n\
\"shift+henkan\" = \"candidate_prev\"\n\
\"muhenkan\" = \"mode_kana_cycle\"\n\
\"f6\" = \"transform_hiragana\"\n\
\"f7\" = \"transform_katakana\"\n\
\"f8\" = \"transform_half_katakana\"\n\
\"f9\" = \"transform_full_alnum\"\n\
\"f10\" = \"transform_half_alnum\"\n\
\"1\" = \"candidate_1\"\n\
\"2\" = \"candidate_2\"\n\
\"3\" = \"candidate_3\"\n\
\"4\" = \"candidate_4\"\n\
\"5\" = \"candidate_5\"\n\
\"6\" = \"candidate_6\"\n\
\"7\" = \"candidate_7\"\n\
\"8\" = \"candidate_8\"\n\
\"9\" = \"candidate_9\"\n\
\"ctrl+i\" = \"transform_katakana\"\n\
\"ctrl+o\" = \"transform_half_katakana\"\n\
\"ctrl+p\" = \"transform_full_alnum\"\n\
\"ctrl+t\" = \"transform_half_alnum\"\n\
\"ctrl+u\" = \"transform_hiragana\"\n\
\n\
[predicting]\n\
\"space\" = \"convert\"\n\
\"shift+space\" = \"convert\"\n\
\"enter\" = \"commit\"\n\
\"shift+enter\" = \"commit_first\"\n\
\"escape\" = \"cancel\"\n\
\"backspace\" = \"delete_back\"\n\
\"shift+backspace\" = \"delete_back\"\n\
\"delete\" = \"delete_forward\"\n\
\"ctrl+delete\" = \"delete_prediction_history\"\n\
\"tab\" = \"predict_next\"\n\
\"shift+tab\" = \"predict_prev\"\n\
\"left\" = \"caret_left\"\n\
\"right\" = \"caret_right\"\n\
\"up\" = \"predict_prev\"\n\
\"down\" = \"predict_next\"\n\
\"home\" = \"caret_home\"\n\
\"end\" = \"caret_end\"\n\
\"page_up\" = \"candidate_page_up\"\n\
\"page_down\" = \"candidate_page_down\"\n\
\"henkan\" = \"convert\"\n\
\"muhenkan\" = \"mode_kana_cycle\"\n\
\"f6\" = \"transform_hiragana\"\n\
\"f7\" = \"transform_katakana\"\n\
\"f8\" = \"transform_half_katakana\"\n\
\"f9\" = \"transform_full_alnum\"\n\
\"f10\" = \"transform_half_alnum\"\n\
\"1\" = \"candidate_1\"\n\
\"2\" = \"candidate_2\"\n\
\"3\" = \"candidate_3\"\n\
\"4\" = \"candidate_4\"\n\
\"5\" = \"candidate_5\"\n\
\"6\" = \"candidate_6\"\n\
\"7\" = \"candidate_7\"\n\
\"8\" = \"candidate_8\"\n\
\"9\" = \"candidate_9\"\n\
";

} // verus!
