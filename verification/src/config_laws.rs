//! What holds of every merge of configuration documents.

use vstd::prelude::*;
use crate::config::{
    lemma_first_set_1, lemma_first_set_2, lemma_first_set_3, or_default, ConfigView, DictSettings,
    EngineSettings, TokenizerSettings, Walk,
};

verus! {

/// The document that sets `ignore_files` and nothing else.
pub open spec fn only_files(flag: bool) -> Walk {
    Walk {
        ignore_hidden: None,
        ignore_files: Some(flag),
        ignore_dot: None,
        ignore_vcs: None,
        ignore_global: None,
        ignore_parent: None,
    }
}

/// The document that sets `ignore_vcs` and nothing else.
pub open spec fn only_vcs(flag: bool) -> Walk {
    Walk {
        ignore_hidden: None,
        ignore_files: None,
        ignore_dot: None,
        ignore_vcs: Some(flag),
        ignore_global: None,
        ignore_parent: None,
    }
}

/// What each flag of a walk resolves to.
pub proof fn lemma_walk_resolves(walk: Walk)
    ensures
        walk.hidden() == (match walk.ignore_hidden {
            Some(flag) => flag,
            None => true,
        }),
        walk.dot() == (match (walk.ignore_dot, walk.ignore_files) {
            (Some(flag), _) => flag,
            (None, Some(flag)) => flag,
            (None, None) => true,
        }),
        walk.vcs() == (match (walk.ignore_vcs, walk.ignore_files) {
            (Some(flag), _) => flag,
            (None, Some(flag)) => flag,
            (None, None) => true,
        }),
        walk.global() == (match (walk.ignore_global, walk.ignore_vcs, walk.ignore_files) {
            (Some(flag), _, _) => flag,
            (None, Some(flag), _) => flag,
            (None, None, Some(flag)) => flag,
            (None, None, None) => true,
        }),
        walk.parent() == (match (walk.ignore_parent, walk.ignore_files) {
            (Some(flag), _) => flag,
            (None, Some(flag)) => flag,
            (None, None) => true,
        }),
{
    lemma_first_set_1(walk.ignore_hidden, true);
    lemma_first_set_2(walk.ignore_dot, walk.ignore_files, true);
    lemma_first_set_2(walk.ignore_vcs, walk.ignore_files, true);
    lemma_first_set_3(walk.ignore_global, walk.ignore_vcs, walk.ignore_files, true);
    lemma_first_set_2(walk.ignore_parent, walk.ignore_files, true);
}

/// A document that sets only `ignore_files` decides the four flags below it.
pub proof fn lemma_only_files_decides(flag: bool)
    ensures
        only_files(flag).dot() == flag,
        only_files(flag).vcs() == flag,
        only_files(flag).global() == flag,
        only_files(flag).parent() == flag,
        only_files(flag).hidden(),
{
    lemma_walk_resolves(only_files(flag));
}

/// Laying the coarse switch over any document carries it through the whole
/// chain: finer flags that the document had set no longer mask it.
pub proof fn lemma_coarse_switch_cascades(base: Walk, flag: bool)
    ensures
        base.merged(only_files(flag)).dot() == flag,
        base.merged(only_files(flag)).vcs() == flag,
        base.merged(only_files(flag)).global() == flag,
        base.merged(only_files(flag)).parent() == flag,
        base.merged(only_files(flag)).hidden() == base.hidden(),
{
    lemma_walk_resolves(base.merged(only_files(flag)));
    lemma_walk_resolves(base);
}

/// Laying `ignore_vcs` over any document also decides `ignore_global`, and
/// leaves the other flags as they resolved before.
pub proof fn lemma_vcs_switch_cascades(base: Walk, flag: bool)
    ensures
        base.merged(only_vcs(flag)).vcs() == flag,
        base.merged(only_vcs(flag)).global() == flag,
        base.merged(only_vcs(flag)).dot() == base.dot(),
        base.merged(only_vcs(flag)).parent() == base.parent(),
        base.merged(only_vcs(flag)).hidden() == base.hidden(),
{
    lemma_walk_resolves(base.merged(only_vcs(flag)));
    lemma_walk_resolves(base);
}

/// Every flag that the overlay sets is the flag of the merge, and resolves to
/// the overlay's value.
pub proof fn lemma_walk_overlay_wins(base: Walk, overlay: Walk)
    ensures
        overlay.ignore_hidden is Some ==> base.merged(overlay).hidden()
            == overlay.ignore_hidden->0,
        overlay.ignore_files is Some ==> base.merged(overlay).ignore_files == overlay.ignore_files,
        overlay.ignore_dot is Some ==> base.merged(overlay).dot() == overlay.ignore_dot->0,
        overlay.ignore_vcs is Some ==> base.merged(overlay).vcs() == overlay.ignore_vcs->0,
        overlay.ignore_global is Some ==> base.merged(overlay).global()
            == overlay.ignore_global->0,
        overlay.ignore_parent is Some ==> base.merged(overlay).parent()
            == overlay.ignore_parent->0,
{
    lemma_walk_resolves(base.merged(overlay));
}

/// Where the overlay sets neither a flag nor a coarser one above it, the merge
/// keeps the flag of the base.
pub proof fn lemma_walk_base_stays(base: Walk, overlay: Walk)
    ensures
        overlay.ignore_hidden is None ==> base.merged(overlay).ignore_hidden
            == base.ignore_hidden,
        overlay.ignore_files is None ==> base.merged(overlay).ignore_files == base.ignore_files,
        overlay.ignore_files is None && overlay.ignore_dot is None ==> base.merged(
            overlay,
        ).ignore_dot == base.ignore_dot,
        overlay.ignore_files is None && overlay.ignore_vcs is None ==> base.merged(
            overlay,
        ).ignore_vcs == base.ignore_vcs,
        overlay.ignore_files is None && overlay.ignore_vcs is None && overlay.ignore_global is None
            ==> base.merged(overlay).ignore_global == base.ignore_global,
        overlay.ignore_files is None && overlay.ignore_parent is None ==> base.merged(
            overlay,
        ).ignore_parent == base.ignore_parent,
{
}

/// For walks it makes no difference whether two overlays are laid on one after
/// the other or merged first.
pub proof fn lemma_walk_merge_associative(a: Walk, b: Walk, c: Walk)
    ensures
        a.merged(b).merged(c) == a.merged(b.merged(c)),
{
}

/// A document with every flag set resolves as the document it was made from.
pub proof fn lemma_all_set_resolves(walk: Walk)
    ensures
        walk.all_set().hidden() == walk.hidden(),
        walk.all_set().dot() == walk.dot(),
        walk.all_set().vcs() == walk.vcs(),
        walk.all_set().global() == walk.global(),
        walk.all_set().parent() == walk.parent(),
{
    lemma_walk_resolves(walk.all_set());
}

/// Laid over the document that sets nothing, every document comes out as it is.
pub proof fn lemma_merge_onto_unset(overlay: ConfigView)
    ensures
        ConfigView::unset().merged(overlay) == overlay,
{
    let merged = ConfigView::unset().merged(overlay);
    assert(merged.files == overlay.files);
    match overlay.default.tokenizer {
        Some(part) => {
            assert(TokenizerSettings::unset().merged(part) =~= part);
        },
        None => {},
    }
    match overlay.default.dict {
        Some(part) => {
            let laid = DictSettings::unset().merged(part);
            assert(laid.extend_identifiers =~= part.extend_identifiers);
            assert(laid.extend_words =~= part.extend_words);
            assert(laid =~= part);
        },
        None => {},
    }
    assert(merged.default =~= overlay.default);
    assert(merged =~= overlay);
}

/// In the engine part of a merge, every flag that the overlay sets wins, and
/// every flag that it leaves unset is the flag of the base.
pub proof fn lemma_engine_flags(base: EngineSettings, overlay: EngineSettings)
    ensures
        base.merged(overlay).checks_binary() == (if overlay.binary is Some {
            overlay.binary->0
        } else {
            base.checks_binary()
        }),
        base.merged(overlay).checks_filename() == (if overlay.check_filename is Some {
            overlay.check_filename->0
        } else {
            base.checks_filename()
        }),
        base.merged(overlay).checks_file() == (if overlay.check_file is Some {
            overlay.check_file->0
        } else {
            base.checks_file()
        }),
{
}

/// The tokenizer part that an engine document stands for: its own, or the one
/// that sets nothing.
pub open spec fn tokenizer_of(engine: EngineSettings) -> TokenizerSettings {
    or_default(engine.tokenizer, TokenizerSettings::unset())
}

/// The dictionary part that an engine document stands for: its own, or the one
/// that sets nothing.
pub open spec fn dict_of(engine: EngineSettings) -> DictSettings {
    or_default(engine.dict, DictSettings::unset())
}

/// The parts of a merge are the merges of the parts. So every tokenizer
/// setting and the locale resolve to what the overlay sets, and to what the
/// base resolves to where the overlay sets nothing.
pub proof fn lemma_engine_parts(base: EngineSettings, overlay: EngineSettings)
    ensures
        tokenizer_of(base.merged(overlay)) == tokenizer_of(base).merged(tokenizer_of(overlay)),
        dict_of(base.merged(overlay)) == dict_of(base).merged(dict_of(overlay)),
        tokenizer_of(base.merged(overlay)).hex() == (match tokenizer_of(overlay).ignore_hex {
            Some(flag) => flag,
            None => tokenizer_of(base).hex(),
        }),
        tokenizer_of(base.merged(overlay)).leading_chars() == (match tokenizer_of(
            overlay,
        ).identifier_leading_chars {
            Some(chars) => chars,
            None => tokenizer_of(base).leading_chars(),
        }),
        tokenizer_of(base.merged(overlay)).include_chars() == (match tokenizer_of(
            overlay,
        ).identifier_include_chars {
            Some(chars) => chars,
            None => tokenizer_of(base).include_chars(),
        }),
        dict_of(base.merged(overlay)).dialect() == (match dict_of(overlay).locale {
            Some(locale) => locale,
            None => dict_of(base).dialect(),
        }),
{
    let merged = base.merged(overlay);
    assert(tokenizer_of(merged) =~= tokenizer_of(base).merged(tokenizer_of(overlay)));
    let ours = dict_of(base);
    let theirs = dict_of(overlay);
    assert(ours.extend_identifiers.union_prefer_right(Map::empty()) =~= ours.extend_identifiers);
    assert(ours.extend_words.union_prefer_right(Map::empty()) =~= ours.extend_words);
    assert(dict_of(merged) =~= ours.merged(theirs));
}

/// A key that both documents extend maps, in the merge, to what the overlay
/// maps it to; a key that only one of them extends keeps its value.
pub proof fn lemma_dict_overlay_wins(base: DictSettings, overlay: DictSettings, key: Seq<char>)
    ensures
        overlay.extend_words.contains_key(key) ==> base.merged(overlay).extend_words[key]
            == overlay.extend_words[key],
        !overlay.extend_words.contains_key(key) && base.extend_words.contains_key(key)
            ==> base.merged(overlay).extend_words[key] == base.extend_words[key],
        base.merged(overlay).extend_words.contains_key(key) == (base.extend_words.contains_key(key)
            || overlay.extend_words.contains_key(key)),
        overlay.extend_identifiers.contains_key(key) ==> base.merged(
            overlay,
        ).extend_identifiers[key] == overlay.extend_identifiers[key],
        !overlay.extend_identifiers.contains_key(key) && base.extend_identifiers.contains_key(key)
            ==> base.merged(overlay).extend_identifiers[key] == base.extend_identifiers[key],
        base.merged(overlay).extend_identifiers.contains_key(key) == (
        base.extend_identifiers.contains_key(key) || overlay.extend_identifiers.contains_key(key)),
{
}

} // verus!
