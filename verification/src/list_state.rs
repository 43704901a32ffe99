//! Mapping a list's logical selection and scroll offset (over selectable
//! rows) to visual rows when the list also shows rows that cannot be
//! selected, such as section headers.
use vstd::prelude::*;

verus! {

/// The visual selection and scroll offset for the logical ones, where
/// `indices[i]` is the visual row of the `i`-th selectable row: the offset is
/// chosen so that the selection keeps its logical distance from the top of the
/// view (as far as the rows above allow).
pub open spec fn visual_state_spec(indices: Seq<usize>, selected: Option<usize>, offset: usize) -> (
    Option<usize>,
    usize,
) {
    let selected_visual = match selected {
        Some(l) => if l < indices.len() {
            Some(indices[l as int])
        } else {
            None
        },
        None => None,
    };
    let offset_visual = if indices.len() == 0 || offset == 0 {
        0usize
    } else {
        let max_logical = (indices.len() - 1) as usize;
        let clamped = if offset < max_logical {
            offset
        } else {
            max_logical
        };
        match (selected, selected_visual) {
            (Some(l), Some(v)) => {
                let distance = if l > clamped {
                    (l - clamped) as usize
                } else {
                    0usize
                };
                if v > distance {
                    (v - distance) as usize
                } else {
                    0usize
                }
            },
            _ => indices[clamped as int],
        }
    };
    (selected_visual, offset_visual)
}

/// Maps a logical selection and scroll offset to visual rows.
pub fn visual_list_state_from_logical(
    selectable_visual_indices: &[usize],
    selected_logical: Option<usize>,
    logical_scroll_offset: usize,
) -> (r: (Option<usize>, usize))
    ensures
        r == visual_state_spec(selectable_visual_indices@, selected_logical, logical_scroll_offset),
{
    let selected_visual = match selected_logical {
        Some(l) => if l < selectable_visual_indices.len() {
            Some(selectable_visual_indices[l])
        } else {
            None
        },
        None => None,
    };
    let offset_visual = if selectable_visual_indices.len() == 0 || logical_scroll_offset == 0 {
        0
    } else {
        let max_logical = selectable_visual_indices.len() - 1;
        let clamped = if logical_scroll_offset < max_logical {
            logical_scroll_offset
        } else {
            max_logical
        };
        match (selected_logical, selected_visual) {
            (Some(l), Some(v)) => {
                let distance = if l > clamped {
                    l - clamped
                } else {
                    0
                };
                if v > distance {
                    v - distance
                } else {
                    0
                }
            },
            _ => selectable_visual_indices[clamped],
        }
    };
    (selected_visual, offset_visual)
}

/// The visual rows of a list whose rows are all selectable: `0..len`.
pub fn identity_visual_indices(len: usize) -> (v: Vec<usize>)
    ensures
        v@ == Seq::new(len as nat, |i: int| i as usize),
{
    let mut v: Vec<usize> = Vec::new();
    let mut i: usize = 0;
    while i < len
        invariant
            i <= len,
            v@ == Seq::new(i as nat, |j: int| j as usize),
        decreases len - i,
    {
        v.push(i);
        assert(v@ =~= Seq::new((i + 1) as nat, |j: int| j as usize));
        i = i + 1;
    }
    v
}

/// Law: when every row is selectable, the visual selection is the logical one
/// (dropped when it lies past the list), and the offset is the logical one
/// clamped to the last row, moved up to the selection when the selection lies
/// above it.
pub proof fn lemma_identity_mapping(len: usize, selected: Option<usize>, offset: usize)
    ensures
        ({
            let (sel, off) = visual_state_spec(Seq::new(len as nat, |i: int| i as usize), selected, offset);
            &&& sel == (match selected {
                Some(l) => if l < len {
                    Some(l)
                } else {
                    None
                },
                None => None,
            })
            &&& off == (if len == 0 || offset == 0 {
                0
            } else {
                let clamped = if offset < len - 1 {
                    offset
                } else {
                    (len - 1) as usize
                };
                match selected {
                    Some(l) => if l < len && l < clamped {
                        l
                    } else {
                        clamped
                    },
                    None => clamped,
                }
            })
        }),
{
    let indices = Seq::new(len as nat, |i: int| i as usize);
    if let Some(l) = selected {
        if l < len {
            assert(indices[l as int] == l);
        }
    }
    if len > 0 && offset > 0 {
        let max_logical = (len - 1) as usize;
        let clamped = if offset < max_logical {
            offset
        } else {
            max_logical
        };
        assert(indices[clamped as int] == clamped);
    }
}

/// Law: when the selection lies in the list at or below the clamped offset and
/// far enough down visually, the view keeps the logical distance between the
/// top row and the selection.
pub proof fn lemma_distance_preserved(indices: Seq<usize>, selected: usize, offset: usize)
    requires
        indices.len() <= usize::MAX,
        0 < offset,
        selected < indices.len(),
        offset <= selected,
        offset < indices.len(),
        indices[selected as int] >= selected - offset,
    ensures
        ({
            let (sel, off) = visual_state_spec(indices, Some(selected), offset);
            sel == Some(indices[selected as int]) && indices[selected as int] - off == selected - offset
        }),
{
    let max_logical = (indices.len() - 1) as usize;
    let clamped = if offset < max_logical {
        offset
    } else {
        max_logical
    };
    assert(clamped == offset);
}

} // verus!
