//! Completion-context classification by a forward scan of raw text.
//!
//! Editor completion must work on transiently invalid JSON, so the cursor
//! context is not derived from a parse tree: a single forward scan tracks
//! string and comment boundaries and container nesting, and the state at the
//! cursor decides whether a property key or a property value belongs there.

use vstd::prelude::*;

use crate::bytestr::bytes_of_slice;

verus! {

/// One open container during the scan. Key text is remembered as a byte
/// range of the source (the content between the quotes), never copied.
#[derive(Clone, Copy, Debug, PartialEq, Eq)]
pub struct ScanLevel {
    /// True for an object, false for an array.
    pub is_object: bool,
    /// True after a `:` whose value has not been consumed yet.
    pub after_colon: bool,
    /// Content range of the last completed key string at this level.
    pub last_key: Option<(usize, usize)>,
    /// Content range of the key in the parent object whose value this
    /// container is.
    pub parent_key: Option<(usize, usize)>,
}

/// The whole scanner state: string/comment flags, where the current string's
/// content began, and the stack of open containers.
#[verifier::ext_equal]
pub struct ScanState {
    pub in_string: bool,
    pub escape: bool,
    pub in_line_comment: bool,
    pub in_block_comment: bool,
    pub string_start: usize,
    pub stack: Seq<ScanLevel>,
}

/// Cursor context for completion: a property key position, or the value
/// position of a named property. The pointer is the path of the enclosing
/// object, outermost key first.
#[derive(Debug, PartialEq, Eq)]
pub enum CompletionContext {
    PropertyKey { pointer: Vec<Vec<u8>> },
    PropertyValue { property_name: Vec<u8>, pointer: Vec<Vec<u8>> },
}

/// Spec-level mirror of [`CompletionContext`].
pub enum ContextModel {
    KeyPosition { pointer: Seq<Seq<u8>> },
    ValuePosition { property_name: Seq<u8>, pointer: Seq<Seq<u8>> },
}

/// The scanner's initial state.
pub open spec fn initial_state() -> ScanState {
    ScanState {
        in_string: false,
        escape: false,
        in_line_comment: false,
        in_block_comment: false,
        string_start: 0,
        stack: Seq::empty(),
    }
}

/// A closed string updates the innermost level: before a colon it was a key;
/// after a colon it was a value.
pub open spec fn close_string(st: ScanState, start: usize, i: usize) -> ScanState {
    let base = ScanState { in_string: false, ..st };
    if st.stack.len() > 0 && st.stack.last().is_object {
        let top = st.stack.last();
        let new_top = if !top.after_colon {
            ScanLevel { last_key: Some((start, i)), ..top }
        } else {
            ScanLevel { after_colon: false, ..top }
        };
        ScanState { stack: st.stack.update(st.stack.len() - 1, new_top), ..base }
    } else {
        base
    }
}

/// The key in the parent object that a container opened now would be the
/// value of.
pub open spec fn parent_key_of(stack: Seq<ScanLevel>) -> Option<(usize, usize)> {
    if stack.len() > 0 && stack.last().is_object && stack.last().after_colon {
        stack.last().last_key
    } else {
        None
    }
}

/// Closing a container pops it; if that re-exposes an object waiting for a
/// value, that value has now been consumed.
pub open spec fn close_container(st: ScanState) -> ScanState {
    let popped = if st.stack.len() > 0 {
        st.stack.drop_last()
    } else {
        st.stack
    };
    if popped.len() > 0 && popped.last().is_object && popped.last().after_colon {
        ScanState {
            stack: popped.update(popped.len() - 1, ScanLevel { after_colon: false, ..popped.last() }),
            ..st
        }
    } else {
        ScanState { stack: popped, ..st }
    }
}

/// A colon arms the innermost object for a value.
pub open spec fn mark_colon(st: ScanState) -> ScanState {
    if st.stack.len() > 0 && st.stack.last().is_object {
        ScanState {
            stack: st.stack.update(
                st.stack.len() - 1,
                ScanLevel { after_colon: true, ..st.stack.last() },
            ),
            ..st
        }
    } else {
        st
    }
}

/// A comma ends the current member: the innermost level goes back to key
/// position and an object forgets its last key.
pub open spec fn mark_comma(st: ScanState) -> ScanState {
    if st.stack.len() > 0 {
        let top = st.stack.last();
        let new_top = ScanLevel {
            after_colon: false,
            last_key: if top.is_object {
                None
            } else {
                top.last_key
            },
            ..top
        };
        ScanState { stack: st.stack.update(st.stack.len() - 1, new_top), ..st }
    } else {
        st
    }
}

/// Run the scanner from position `i` to `end`.
pub open spec fn scan_from(src: Seq<u8>, end: usize, i: usize, st: ScanState) -> ScanState
    decreases end - i,
{
    if i >= end {
        st
    } else {
        let b = src[i as int];
        if st.in_line_comment {
            let st2 = if b == 10 {
                ScanState { in_line_comment: false, ..st }
            } else {
                st
            };
            scan_from(src, end, (i + 1) as usize, st2)
        } else if st.in_block_comment {
            if b == 42 && i + 1 < end && src[i + 1] == 47 {
                scan_from(
                    src,
                    end,
                    (i + 2) as usize,
                    ScanState { in_block_comment: false, ..st },
                )
            } else {
                scan_from(src, end, (i + 1) as usize, st)
            }
        } else if st.in_string {
            if st.escape {
                scan_from(src, end, (i + 1) as usize, ScanState { escape: false, ..st })
            } else if b == 92 {
                scan_from(src, end, (i + 1) as usize, ScanState { escape: true, ..st })
            } else if b == 34 {
                scan_from(src, end, (i + 1) as usize, close_string(st, st.string_start, i))
            } else {
                scan_from(src, end, (i + 1) as usize, st)
            }
        } else if b == 47 && i + 1 < end && src[i + 1] == 47 {
            scan_from(src, end, (i + 2) as usize, ScanState { in_line_comment: true, ..st })
        } else if b == 47 && i + 1 < end && src[i + 1] == 42 {
            scan_from(src, end, (i + 2) as usize, ScanState { in_block_comment: true, ..st })
        } else if b == 34 {
            scan_from(
                src,
                end,
                (i + 1) as usize,
                ScanState { in_string: true, string_start: (i + 1) as usize, ..st },
            )
        } else if b == 123 {
            let lv = ScanLevel {
                is_object: true,
                after_colon: false,
                last_key: None,
                parent_key: parent_key_of(st.stack),
            };
            scan_from(src, end, (i + 1) as usize, ScanState { stack: st.stack.push(lv), ..st })
        } else if b == 91 {
            let lv = ScanLevel {
                is_object: false,
                after_colon: false,
                last_key: None,
                parent_key: None,
            };
            scan_from(src, end, (i + 1) as usize, ScanState { stack: st.stack.push(lv), ..st })
        } else if b == 125 || b == 93 {
            scan_from(src, end, (i + 1) as usize, close_container(st))
        } else if b == 58 {
            scan_from(src, end, (i + 1) as usize, mark_colon(st))
        } else if b == 44 {
            scan_from(src, end, (i + 1) as usize, mark_comma(st))
        } else {
            scan_from(src, end, (i + 1) as usize, st)
        }
    }
}

/// The innermost object on the stack, skipping any arrays above it.
pub open spec fn innermost_object(stack: Seq<ScanLevel>) -> Option<int>
    decreases stack.len(),
{
    if stack.len() == 0 {
        None
    } else if stack.last().is_object {
        Some(stack.len() - 1)
    } else {
        innermost_object(stack.drop_last())
    }
}

/// The pointer path of the level at index `upto`: the parent keys recorded on
/// levels 1 through `upto`, in order.
pub open spec fn pointer_of(src: Seq<u8>, stack: Seq<ScanLevel>, upto: int) -> Seq<Seq<u8>>
    decreases upto,
{
    if upto <= 0 {
        Seq::empty()
    } else {
        let pre = pointer_of(src, stack, upto - 1);
        match stack[upto].parent_key {
            Some((s, e)) => pre.push(src.subrange(s as int, e as int)),
            None => pre,
        }
    }
}

/// What the final scanner state says about the cursor: nothing inside a
/// comment or outside any object; otherwise a key position, or a value
/// position named by the innermost object's last key.
pub open spec fn classify(src: Seq<u8>, st: ScanState) -> Option<ContextModel> {
    if st.in_line_comment || st.in_block_comment {
        None
    } else {
        match innermost_object(st.stack) {
            None => None,
            Some(oi) => {
                let lv = st.stack[oi];
                let ptr = pointer_of(src, st.stack, oi);
                if lv.after_colon {
                    let name = match lv.last_key {
                        Some((s, e)) => src.subrange(s as int, e as int),
                        None => Seq::empty(),
                    };
                    Some(ContextModel::ValuePosition { property_name: name, pointer: ptr })
                } else {
                    Some(ContextModel::KeyPosition { pointer: ptr })
                }
            },
        }
    }
}

/// The completion context at a byte offset: the classification of the
/// scanner state after scanning everything before the offset.
pub open spec fn completion_context_spec(src: Seq<u8>, byte_offset: usize) -> Option<
    ContextModel,
> {
    let end = if byte_offset <= src.len() {
        byte_offset
    } else {
        src.len() as usize
    };
    classify(src, scan_from(src, end, 0, initial_state()))
}

/// The view of an executable context.
pub open spec fn context_view(c: CompletionContext) -> ContextModel {
    match c {
        CompletionContext::PropertyKey { pointer } => ContextModel::KeyPosition {
            pointer: pointer@.map_values(|v: Vec<u8>| v@),
        },
        CompletionContext::PropertyValue { property_name, pointer } => {
            ContextModel::ValuePosition {
                property_name: property_name@,
                pointer: pointer@.map_values(|v: Vec<u8>| v@),
            }
        },
    }
}

/// All ranges a state remembers stay within `end`, and the current string's
/// content starts at or before the scan position.
pub open spec fn state_wf(st: ScanState, i: usize, end: usize) -> bool {
    &&& (st.in_string ==> st.string_start <= i)
    &&& forall|k: int| 0 <= k < st.stack.len() ==> #[trigger] range_wf(st.stack[k].last_key, end)
    &&& forall|k: int| 0 <= k < st.stack.len() ==> #[trigger] range_wf(st.stack[k].parent_key, end)
}

/// A remembered key range is ordered and within `end`.
pub open spec fn range_wf(r: Option<(usize, usize)>, end: usize) -> bool {
    match r {
        Some((s, e)) => s <= e <= end,
        None => true,
    }
}

/// Determine the completion context at a byte offset by scanning the source
/// text from the start, tracking string boundaries, comments and container
/// nesting. Inside a comment, inside an array only, or outside any object,
/// there is no context.
pub fn completion_context(source: &[u8], byte_offset: usize) -> (r: Option<CompletionContext>)
    ensures
        match (r, completion_context_spec(source@, byte_offset)) {
            (Some(c), Some(m)) => context_view(c) == m,
            (None, None) => true,
            _ => false,
        },
{
    let end = if byte_offset <= source.len() {
        byte_offset
    } else {
        source.len()
    };
    let ghost src = source@;

    let mut in_string = false;
    let mut escape = false;
    let mut in_line_comment = false;
    let mut in_block_comment = false;
    let mut string_start: usize = 0;
    let mut stack: Vec<ScanLevel> = Vec::new();
    let mut i: usize = 0;

    proof {
        assert(cur_state(in_string, escape, in_line_comment, in_block_comment, string_start, stack@)
            =~~= initial_state());
    }

    while i < end
        invariant
            i <= end <= src.len(),
            src == source@,
            scan_from(src, end, 0, initial_state()) == scan_from(
                src,
                end,
                i,
                cur_state(
                    in_string,
                    escape,
                    in_line_comment,
                    in_block_comment,
                    string_start,
                    stack@,
                ),
            ),
            state_wf(
                cur_state(
                    in_string,
                    escape,
                    in_line_comment,
                    in_block_comment,
                    string_start,
                    stack@,
                ),
                i,
                end,
            ),
        decreases end - i,
    {
        let ghost st = cur_state(
            in_string,
            escape,
            in_line_comment,
            in_block_comment,
            string_start,
            stack@,
        );
        let b = source[i];

        if in_line_comment {
            if b == 10 {
                in_line_comment = false;
            }
            i = i + 1;
            continue ;
        }
        if in_block_comment {
            if b == 42 && i + 1 < end && source[i + 1] == 47 {
                in_block_comment = false;
                i = i + 2;
            } else {
                i = i + 1;
            }
            continue ;
        }
        if in_string {
            if escape {
                escape = false;
            } else if b == 92 {
                escape = true;
            } else if b == 34 {
                in_string = false;
                let n = stack.len();
                if n > 0 && stack[n - 1].is_object {
                    let top = stack[n - 1];
                    let new_top = if !top.after_colon {
                        ScanLevel { last_key: Some((string_start, i)), ..top }
                    } else {
                        ScanLevel { after_colon: false, ..top }
                    };
                    stack.set(n - 1, new_top);
                }
                proof {
                    assert(cur_state(
                        in_string,
                        escape,
                        in_line_comment,
                        in_block_comment,
                        string_start,
                        stack@,
                    ) =~~= close_string(st, st.string_start, i));
                }
            }
            i = i + 1;
            continue ;
        }
        if b == 47 && i + 1 < end {
            let b2 = source[i + 1];
            if b2 == 47 {
                in_line_comment = true;
                i = i + 2;
                continue ;
            }
            if b2 == 42 {
                in_block_comment = true;
                i = i + 2;
                continue ;
            }
        }
        if b == 34 {
            in_string = true;
            string_start = i + 1;
        } else if b == 123 {
            let n = stack.len();
            let parent_key: Option<(usize, usize)> = if n > 0 && stack[n - 1].is_object && stack[n
                - 1].after_colon {
                stack[n - 1].last_key
            } else {
                None
            };
            stack.push(
                ScanLevel { is_object: true, after_colon: false, last_key: None, parent_key },
            );
        } else if b == 91 {
            stack.push(
                ScanLevel {
                    is_object: false,
                    after_colon: false,
                    last_key: None,
                    parent_key: None,
                },
            );
        } else if b == 125 || b == 93 {
            if stack.len() > 0 {
                let _ = stack.pop();
            }
            let n = stack.len();
            if n > 0 && stack[n - 1].is_object && stack[n - 1].after_colon {
                let top = stack[n - 1];
                stack.set(n - 1, ScanLevel { after_colon: false, ..top });
            }
            proof {
                assert(cur_state(
                    in_string,
                    escape,
                    in_line_comment,
                    in_block_comment,
                    string_start,
                    stack@,
                ) =~~= close_container(st));
            }
        } else if b == 58 {
            let n = stack.len();
            if n > 0 && stack[n - 1].is_object {
                let top = stack[n - 1];
                stack.set(n - 1, ScanLevel { after_colon: true, ..top });
            }
            proof {
                assert(cur_state(
                    in_string,
                    escape,
                    in_line_comment,
                    in_block_comment,
                    string_start,
                    stack@,
                ) =~~= mark_colon(st));
            }
        } else if b == 44 {
            let n = stack.len();
            if n > 0 {
                let top = stack[n - 1];
                let new_top = ScanLevel {
                    after_colon: false,
                    last_key: if top.is_object {
                        None
                    } else {
                        top.last_key
                    },
                    ..top
                };
                stack.set(n - 1, new_top);
            }
            proof {
                assert(cur_state(
                    in_string,
                    escape,
                    in_line_comment,
                    in_block_comment,
                    string_start,
                    stack@,
                ) =~~= mark_comma(st));
            }
        }
        i = i + 1;
    }

    let ghost final_state = cur_state(
        in_string,
        escape,
        in_line_comment,
        in_block_comment,
        string_start,
        stack@,
    );
    proof {
        assert(scan_from(src, end, 0, initial_state()) == final_state);
    }

    if in_line_comment || in_block_comment {
        return None;
    }

    // Find the innermost object level.
    let nlev = stack.len();
    let mut oi: usize = nlev;
    let mut found = false;
    proof {
        assert(stack@.take(stack@.len() as int) =~= stack@);
    }
    while oi > 0 && !found
        invariant
            oi <= nlev == stack@.len(),
            !found ==> innermost_object(stack@) == innermost_object(stack@.take(oi as int)),
            found ==> innermost_object(stack@) == Some(oi as int) && (oi as int) < stack@.len()
                && stack@[oi as int].is_object,
        decreases oi,
    {
        proof {
            assert(stack@.take(oi as int).last() == stack@[oi - 1]);
            assert(stack@.take(oi as int).drop_last() =~= stack@.take(oi - 1));
        }
        if stack[oi - 1].is_object {
            found = true;
            oi = oi - 1;
        } else {
            oi = oi - 1;
        }
    }
    if !found {
        proof {
            assert(stack@.take(0) =~= Seq::<ScanLevel>::empty());
        }
        return None;
    }

    // Build the pointer path: parent keys of levels 1..=oi.
    let mut pointer: Vec<Vec<u8>> = Vec::new();
    let mut k: usize = 1;
    proof {
        assert(pointer@.map_values(|v: Vec<u8>| v@) =~= pointer_of(src, stack@, 0));
    }
    while k <= oi
        invariant
            1 <= k <= oi + 1,
            (oi as int) < stack@.len(),
            stack@.len() == nlev,
            src == source@,
            state_wf(final_state, end, end),
            final_state.stack == stack@,
            end <= src.len(),
            pointer@.map_values(|v: Vec<u8>| v@) == pointer_of(src, stack@, k - 1),
        decreases oi + 1 - k,
    {
        match stack[k].parent_key {
            Some((s, e)) => {
                proof {
                    assert(range_wf(stack@[k as int].last_key, end));
                    assert(range_wf(stack@[k as int].parent_key, end));
                }
                let piece = bytes_of_slice(&source[s..e]);
                pointer.push(piece);
                proof {
                    assert(pointer@.map_values(|v: Vec<u8>| v@) =~= pointer_of(
                        src,
                        stack@,
                        k as int,
                    ));
                }
            },
            None => {
                proof {
                    assert(pointer@.map_values(|v: Vec<u8>| v@) =~= pointer_of(
                        src,
                        stack@,
                        k as int,
                    ));
                }
            },
        }
        k = k + 1;
    }

    let level = stack[oi];
    if level.after_colon {
        let property_name: Vec<u8> = match level.last_key {
            Some((s, e)) => {
                proof {
                    assert(range_wf(stack@[oi as int].last_key, end));
                }
                bytes_of_slice(&source[s..e])
            },
            None => Vec::new(),
        };
        Some(CompletionContext::PropertyValue { property_name, pointer })
    } else {
        Some(CompletionContext::PropertyKey { pointer })
    }
}

/// Assemble a spec state from the scanner's working variables.
pub open spec fn cur_state(
    in_string: bool,
    escape: bool,
    in_line_comment: bool,
    in_block_comment: bool,
    string_start: usize,
    stack: Seq<ScanLevel>,
) -> ScanState {
    ScanState { in_string, escape, in_line_comment, in_block_comment, string_start, stack }
}

} // verus!
