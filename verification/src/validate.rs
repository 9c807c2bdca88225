//! Universal blob key validation.
//!
//! A key is refused where it would be unsafe or ambiguous on some backend. On a
//! file system `a/../../x` escapes the root directory and `/x` is absolute; an
//! object store takes both as flat names. A backslash separates directories on
//! some platforms only. Empty components and a trailing separator name
//! directories on one kind of backend and objects on the other.

use vstd::prelude::*;

use crate::error::BlobStorageError;
use crate::error::ErrorView;
use crate::error::Result;
use crate::text;
use crate::types::BlobInput;
use crate::types::BlobInputView;
use crate::types::KEY_SEPARATOR;

verus! {

/// The text of a refusal that quotes the refused key.
pub open spec fn quoting(reason: Seq<char>, key: Seq<char>) -> Seq<char> {
    reason + ": '"@ + key + "'"@
}

/// Whether a component names the directory itself or its parent.
pub open spec fn is_dots(component: Seq<char>) -> bool {
    component == ".."@ || component == "."@
}

/// Why the first offending component of a key makes it invalid.
pub open spec fn component_error(components: Seq<Seq<char>>) -> Option<Seq<char>>
    decreases components.len(),
{
    if components.len() == 0 {
        None
    } else if components[0].len() == 0 {
        Some("blob key must not contain empty components"@)
    } else if is_dots(components[0]) {
        Some("blob key must not contain '..' or '.' components"@)
    } else {
        component_error(components.skip(1))
    }
}

/// The message with which a key is refused; `None` for a valid key.
pub open spec fn blob_key_error(key: Seq<char>) -> Option<Seq<char>> {
    if key.len() == 0 {
        Some("blob key must not be empty"@)
    } else if key.first() == KEY_SEPARATOR {
        Some(quoting("blob key must not start with '/'"@, key))
    } else if key.last() == KEY_SEPARATOR {
        Some(quoting("blob key must not end with '/'"@, key))
    } else if key.contains('\\') {
        Some(quoting("blob key must not contain backslash"@, key))
    } else {
        match component_error(text::split(key, KEY_SEPARATOR)) {
            Some(reason) => Some(quoting(reason, key)),
            None => None,
        }
    }
}

/// Whether every backend accepts the key.
pub open spec fn valid_blob_key(key: Seq<char>) -> bool {
    blob_key_error(key) is None
}

/// The result of validating a key.
pub open spec fn validation(key: Seq<char>) -> core::result::Result<(), ErrorView> {
    match blob_key_error(key) {
        None => Ok(()),
        Some(message) => Err(ErrorView::InvalidInput(message)),
    }
}

/// The first refusal among several keys, in order; `Ok` when all are valid.
pub open spec fn validation_of_all(keys: Seq<Seq<char>>) -> core::result::Result<(), ErrorView>
    decreases keys.len(),
{
    if keys.len() == 0 {
        Ok(())
    } else if !valid_blob_key(keys[0]) {
        validation(keys[0])
    } else {
        validation_of_all(keys.skip(1))
    }
}

/// The error that refuses an argument with the given reason and quotes it.
pub(crate) fn refusal(reason: &str, argument: &str) -> (r: BlobStorageError)
    ensures
        r@ == ErrorView::InvalidInput(quoting(reason@, argument@)),
{
    let mut message: String = reason.to_owned();
    message.append(": '");
    message.append(argument);
    message.append("'");
    BlobStorageError::InvalidInput(message)
}

/// Whether a component names the directory itself or its parent.
pub(crate) fn has_dots(component: &str) -> (r: bool)
    ensures
        r == is_dots(component@),
{
    text::str_eq(component, "..") || text::str_eq(component, ".")
}

/// Validate a blob key against the subset that all backends agree on.
pub fn validate_blob_key(key: &str) -> (r: Result<()>)
    ensures
        crate::error::result_view(r) == validation(key@),
{
    if key.is_empty() {
        return Err(BlobStorageError::InvalidInput("blob key must not be empty".to_owned()));
    }
    let cs = text::chars_of(key);
    if cs[0] == KEY_SEPARATOR {
        return Err(refusal("blob key must not start with '/'", key));
    }
    if cs[cs.len() - 1] == KEY_SEPARATOR {
        return Err(refusal("blob key must not end with '/'", key));
    }
    if text::contains_char(key, '\\') {
        return Err(refusal("blob key must not contain backslash", key));
    }
    let components = text::split_on(key, KEY_SEPARATOR);
    let mut i: usize = 0;
    let ghost all = components.deep_view();
    assert(all.skip(0) =~= all);
    while i < components.len()
        invariant
            i <= components.len(),
            all == components.deep_view(),
            all == text::split(key@, KEY_SEPARATOR),
            component_error(all.skip(i as int)) == component_error(all),
            key@.len() > 0,
            key@.first() != KEY_SEPARATOR,
            key@.last() != KEY_SEPARATOR,
            !key@.contains('\\'),
        decreases components.len() - i,
    {
        assert(all.skip(i as int)[0] == components[i as int]@);
        assert(all.skip(i as int).skip(1) =~= all.skip(i + 1));
        let component = components[i].as_str();
        if component.is_empty() {
            return Err(refusal("blob key must not contain empty components", key));
        }
        if has_dots(component) {
            return Err(refusal("blob key must not contain '..' or '.' components", key));
        }
        i = i + 1;
    }
    Ok(())
}

/// Validate several keys; the first invalid one decides.
pub fn validate_blob_keys(keys: &Vec<String>) -> (r: Result<()>)
    ensures
        crate::error::result_view(r) == validation_of_all(keys.deep_view()),
{
    let ghost all = keys.deep_view();
    let mut i: usize = 0;
    assert(all.skip(0) =~= all);
    while i < keys.len()
        invariant
            i <= keys.len(),
            all == keys.deep_view(),
            validation_of_all(all.skip(i as int)) == validation_of_all(all),
        decreases keys.len() - i,
    {
        assert(all.skip(i as int)[0] == keys[i as int]@);
        assert(all.skip(i as int).skip(1) =~= all.skip(i + 1));
        match validate_blob_key(keys[i].as_str()) {
            Ok(()) => {},
            Err(e) => {
                return Err(e);
            },
        }
        i = i + 1;
    }
    Ok(())
}

/// The keys of blobs, in their order.
pub open spec fn blob_keys<D>(blobs: Seq<BlobInputView<D>>) -> Seq<Seq<char>> {
    blobs.map_values(|b: BlobInputView<D>| b.key)
}

/// Validate the keys of blobs; the first invalid one decides.
pub(crate) fn validate_blobs<D>(blobs: &Vec<BlobInput<D>>) -> (r: Result<()>)
    ensures
        crate::error::result_view(r) == validation_of_all(blob_keys(blobs.deep_view())),
{
    let ghost all = blob_keys(blobs.deep_view());
    let mut i: usize = 0;
    assert(all.skip(0) =~= all);
    while i < blobs.len()
        invariant
            i <= blobs.len(),
            all == blob_keys(blobs.deep_view()),
            validation_of_all(all.skip(i as int)) == validation_of_all(all),
        decreases blobs.len() - i,
    {
        assert(all.skip(i as int)[0] == blobs[i as int].key@);
        assert(all.skip(i as int).skip(1) =~= all.skip(i + 1));
        match validate_blob_key(blobs[i].key.as_str()) {
            Ok(()) => {},
            Err(e) => {
                return Err(e);
            },
        }
        i = i + 1;
    }
    Ok(())
}

/// All keys are valid exactly when validating them in order succeeds.
pub proof fn lemma_validation_of_all(keys: Seq<Seq<char>>)
    ensures
        validation_of_all(keys) is Ok <==> (forall|i: int|
            0 <= i < keys.len() ==> valid_blob_key(#[trigger] keys[i])),
    decreases keys.len(),
{
    if keys.len() > 0 {
        let rest = keys.skip(1);
        lemma_validation_of_all(rest);
        if forall|i: int| 0 <= i < rest.len() ==> valid_blob_key(#[trigger] rest[i]) {
            assert forall|i: int| 1 <= i < keys.len() implies valid_blob_key(
                #[trigger] keys[i],
            ) by {
                assert(rest[i - 1] == keys[i]);
            }
        } else {
            let i = choose|i: int| 0 <= i < rest.len() && !valid_blob_key(#[trigger] rest[i]);
            assert(keys[i + 1] == rest[i]);
        }
        if valid_blob_key(keys[0]) {
            if forall|i: int| 0 <= i < keys.len() ==> valid_blob_key(#[trigger] keys[i]) {
                assert forall|i: int| 0 <= i < rest.len() implies valid_blob_key(
                    #[trigger] rest[i],
                ) by {
                    assert(rest[i] == keys[i + 1]);
                }
            }
        }
    }
}

/// No component offends exactly when none is empty, `.` or `..`.
proof fn lemma_component_error(components: Seq<Seq<char>>)
    ensures
        component_error(components) is None <==> (forall|i: int|
            0 <= i < components.len() ==> (#[trigger] components[i]).len() > 0 && !is_dots(
                components[i],
            )),
    decreases components.len(),
{
    if components.len() > 0 {
        let rest = components.skip(1);
        lemma_component_error(rest);
        assert forall|i: int| 0 <= i < rest.len() implies rest[i] == #[trigger] components[i
            + 1] by {}
        if forall|i: int|
            0 <= i < components.len() ==> (#[trigger] components[i]).len() > 0 && !is_dots(
                components[i],
            ) {
            assert forall|i: int| 0 <= i < rest.len() implies (#[trigger] rest[i]).len() > 0
                && !is_dots(rest[i]) by {
                assert(rest[i] == components[i + 1]);
            }
        }
        if component_error(components) is None {
            assert forall|i: int| 0 <= i < components.len() implies (#[trigger]
            components[i]).len() > 0 && !is_dots(components[i]) by {
                if i > 0 {
                    assert(components[i] == rest[i - 1]);
                }
            }
        }
    }
}

/// The first and the last piece of a text tell whether it starts or ends with
/// the separator.
proof fn lemma_split_ends(s: Seq<char>, sep: char)
    requires
        s.len() > 0,
    ensures
        text::split(s, sep).len() > 0,
        s.first() == sep <==> text::split(s, sep).first().len() == 0,
        s.last() == sep ==> text::split(s, sep).last().len() == 0,
    decreases s.len(),
{
    text::lemma_first_index(s, sep);
    let i = text::first_index(s, sep);
    if i < s.len() {
        let t = s.skip(i + 1);
        if t.len() > 0 {
            lemma_split_ends(t, sep);
            assert(t.last() == s.last());
            assert(text::split(s, sep).last() == text::split(t, sep).last());
        } else {
            assert(text::split(t, sep) =~= seq![t]);
            assert(text::split(s, sep).last() == t);
        }
    }
}

/// A key is valid exactly when it is not empty, has no backslash, and none of
/// its components is empty, `.` or `..`. The refusals of a leading and of a
/// trailing separator add nothing to that: they only give a clearer message.
pub proof fn law_valid_key_components(key: Seq<char>)
    ensures
        valid_blob_key(key) <==> {
            &&& key.len() > 0
            &&& !key.contains('\\')
            &&& forall|i: int|
                0 <= i < text::split(key, KEY_SEPARATOR).len() ==> (#[trigger] text::split(
                    key,
                    KEY_SEPARATOR,
                )[i]).len() > 0 && !is_dots(text::split(key, KEY_SEPARATOR)[i])
        },
{
    let components = text::split(key, KEY_SEPARATOR);
    lemma_component_error(components);
    if key.len() > 0 {
        lemma_split_ends(key, KEY_SEPARATOR);
        assert(components.first() == components[0]);
        assert(components.last() == components[components.len() - 1]);
    }
}

/// A refused key is an invalid argument.
pub proof fn lemma_validation_error(keys: Seq<Seq<char>>)
    ensures
        validation_of_all(keys) matches Err(e) ==> e is InvalidInput,
    decreases keys.len(),
{
    if keys.len() > 0 {
        lemma_validation_error(keys.skip(1));
    }
}

/// The components that name the directory itself or its parent are one dot and two
/// dots.
pub proof fn law_dots(component: Seq<char>)
    ensures
        is_dots(component) <==> {
            ||| component.len() == 1 && component[0] == '.'
            ||| component.len() == 2 && component[0] == '.' && component[1] == '.'
        },
{
    reveal_strlit("..");
    reveal_strlit(".");
    if component.len() == 1 && component[0] == '.' {
        assert(component =~= "."@);
    }
    if component.len() == 2 && component[0] == '.' && component[1] == '.' {
        assert(component =~= ".."@);
    }
}

/// A key is valid exactly when it is not empty, has no backslash, and between any two
/// neighbouring separators, or a separator and an end, there is something, and it is
/// neither one dot nor two.
pub proof fn law_valid_key_characters(key: Seq<char>)
    ensures
        valid_blob_key(key) <==> {
            &&& key.len() > 0
            &&& !key.contains('\\')
            &&& forall|i: int, j: int| #[trigger]
                text::is_piece(key, '/', i, j) ==> {
                    &&& j > i
                    &&& !(j == i + 1 && key[i] == '.')
                    &&& !(j == i + 2 && key[i] == '.' && key[i + 1] == '.')
                }
        },
        validation(key) is Ok <==> valid_blob_key(key),
{
    law_valid_key_components(key);
    let components = text::split(key, '/');
    if valid_blob_key(key) {
        assert forall|i: int, j: int| #[trigger] text::is_piece(key, '/', i, j) implies {
            &&& j > i
            &&& !(j == i + 1 && key[i] == '.')
            &&& !(j == i + 2 && key[i] == '.' && key[i + 1] == '.')
        } by {
            text::law_split_loses_nothing(key, '/', i, j);
            let n = choose|n: int| 0 <= n < components.len() && components[n] == key.subrange(i, j);
            assert(components[n].len() > 0 && !is_dots(components[n]));
            law_dots(key.subrange(i, j));
        }
    } else if key.len() > 0 && !key.contains('\\') {
        let n = choose|n: int|
            0 <= n < components.len() && !((#[trigger] components[n]).len() > 0 && !is_dots(
                components[n],
            ));
        let (i, j) = text::law_split_adds_nothing(key, '/', n);
        law_dots(components[n]);
        assert(text::is_piece(key, '/', i, j));
    }
}

/// The text of a refusal names the first thing that is wrong with the key, in this
/// order: that it is empty, a leading and a trailing separator, a backslash, and then
/// the first component that is empty or dots. All but the first quote the key.
pub proof fn law_refusal_names_the_first_fault(key: Seq<char>, n: int)
    ensures
        validation(key) matches Err(e) ==> e is InvalidInput,
        key.len() == 0 ==> validation(key) == Err::<(), ErrorView>(
            ErrorView::InvalidInput("blob key must not be empty"@),
        ),
        key.len() > 0 && key[0] == '/' ==> validation(key) == Err::<(), ErrorView>(
            ErrorView::InvalidInput("blob key must not start with '/'"@ + ": '"@ + key + "'"@),
        ),
        key.len() > 0 && key[0] != '/' && key[key.len() - 1] == '/' ==> validation(key) == Err::<
            (),
            ErrorView,
        >(ErrorView::InvalidInput("blob key must not end with '/'"@ + ": '"@ + key + "'"@)),
        key.len() > 0 && key[0] != '/' && key[key.len() - 1] != '/' && key.contains('\\')
            ==> validation(key) == Err::<(), ErrorView>(
            ErrorView::InvalidInput("blob key must not contain backslash"@ + ": '"@ + key + "'"@),
        ),
        key.len() > 0 && key[0] != '/' && key[key.len() - 1] != '/' && !key.contains('\\') && 0
            <= n < text::split(key, '/').len() && (forall|i: int|
            0 <= i < n ==> (#[trigger] text::split(key, '/')[i]).len() > 0 && !is_dots(
                text::split(key, '/')[i],
            )) ==> {
            &&& text::split(key, '/')[n].len() == 0 ==> validation(key) == Err::<(), ErrorView>(
                ErrorView::InvalidInput(
                    "blob key must not contain empty components"@ + ": '"@ + key + "'"@,
                ),
            )
            &&& is_dots(text::split(key, '/')[n]) ==> validation(key) == Err::<(), ErrorView>(
                ErrorView::InvalidInput(
                    "blob key must not contain '..' or '.' components"@ + ": '"@ + key + "'"@,
                ),
            )
        },
{
    let components = text::split(key, '/');
    if 0 <= n < components.len() && (forall|i: int|
        0 <= i < n ==> (#[trigger] components[i]).len() > 0 && !is_dots(components[i])) {
        lemma_first_component(components, n);
        law_dots(components[n]);
    }
}

/// The first component that offends decides.
proof fn lemma_first_component(components: Seq<Seq<char>>, n: int)
    requires
        0 <= n < components.len(),
        forall|i: int|
            0 <= i < n ==> (#[trigger] components[i]).len() > 0 && !is_dots(components[i]),
    ensures
        components[n].len() == 0 ==> component_error(components) == Some(
            "blob key must not contain empty components"@,
        ),
        components[n].len() > 0 && is_dots(components[n]) ==> component_error(components) == Some(
            "blob key must not contain '..' or '.' components"@,
        ),
    decreases n,
{
    if n > 0 {
        let rest = components.skip(1);
        assert(components[0].len() > 0 && !is_dots(components[0]));
        assert forall|i: int| 0 <= i < n - 1 implies (#[trigger] rest[i]).len() > 0 && !is_dots(
            rest[i],
        ) by {
            assert(rest[i] == components[i + 1]);
        }
        lemma_first_component(rest, n - 1);
    }
}

/// Several keys are refused with the refusal of the first invalid one.
pub proof fn law_first_invalid_key_decides(keys: Seq<Seq<char>>, n: int)
    requires
        0 <= n < keys.len(),
        forall|i: int| 0 <= i < n ==> validation(#[trigger] keys[i]) is Ok,
        validation(keys[n]) is Err,
    ensures
        validation_of_all(keys) == validation(keys[n]),
    decreases n,
{
    if n > 0 {
        let rest = keys.skip(1);
        assert(validation(keys[0]) is Ok);
        assert forall|i: int| 0 <= i < n - 1 implies validation(#[trigger] rest[i]) is Ok by {
            assert(rest[i] == keys[i + 1]);
        }
        law_first_invalid_key_decides(rest, n - 1);
    }
}

} // verus!
