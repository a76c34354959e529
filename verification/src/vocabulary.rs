//! The v0 capability-class vocabulary: the closed class/unit registry
//! published by the protocol. A measurement that cannot be normalized under a
//! specific class is reported under `default`, never approximated.

use vstd::prelude::*;

use crate::text::same_text;

verus! {

/// The vocabulary revision this module implements.
pub const RATE_CARD_VERSION: &'static str = "v0";

/// The interim fallback class carrying the settled amount in nanotos as its
/// work units.
pub const DEFAULT_CLASS: &'static str = "default";

/// The closed v0 registry, ordered by class name.
pub const CLASS_UNITS: [(&'static str, &'static str); 8] = [
    ("default", "settled-nanotos"),
    ("embedding", "call"),
    ("image-generation", "image"),
    ("speech-recognition", "audio-second"),
    ("speech-synthesis", "audio-second"),
    ("storage-byte-hour", "byte-hour"),
    ("text-generation", "kilo-output-tokens"),
    ("verification-replication", "replicated-call"),
];

/// The class is registered at position `i`, and nowhere before it.
pub open spec fn registered_at(class: Seq<char>, i: int) -> bool {
    &&& 0 <= i < CLASS_UNITS@.len()
    &&& CLASS_UNITS@[i].0@ == class
    &&& forall|j: int| 0 <= j < i ==> #[trigger] CLASS_UNITS@[j].0@ != class
}

/// The unit that the registry gives a class.
pub open spec fn class_unit(class: Seq<char>) -> Option<&'static str> {
    if exists|i: int| registered_at(class, i) {
        Some(CLASS_UNITS@[choose|i: int| registered_at(class, i)].1)
    } else {
        None
    }
}

proof fn registered_once(class: Seq<char>, i: int, j: int)
    requires
        registered_at(class, i),
        registered_at(class, j),
    ensures
        i == j,
{
    if i < j {
        assert(CLASS_UNITS@[i].0@ != class);
    } else if j < i {
        assert(CLASS_UNITS@[j].0@ != class);
    }
}

/// Looking up any registered class gives the unit it is registered with.
pub proof fn lookup_matches_registry(i: int)
    requires
        0 <= i < CLASS_UNITS@.len(),
    ensures
        class_unit(CLASS_UNITS@[i].0@) == Some(CLASS_UNITS@[i].1),
{
    reveal_strlit("default");
    reveal_strlit("embedding");
    reveal_strlit("image-generation");
    reveal_strlit("speech-recognition");
    reveal_strlit("speech-synthesis");
    reveal_strlit("storage-byte-hour");
    reveal_strlit("text-generation");
    reveal_strlit("verification-replication");
    let class = CLASS_UNITS@[i].0@;
    assert forall|j: int| 0 <= j < i implies #[trigger] CLASS_UNITS@[j].0@ != class by {
        if CLASS_UNITS@[j].0@ == class {
            assert(CLASS_UNITS@[j].0@.len() == class.len());
            assert(CLASS_UNITS@[j].0@[0] == class[0]);
        }
    }
    assert(registered_at(class, i));
    registered_once(class, i, choose|k: int| registered_at(class, k));
}

/// The normalized billing unit of a v0 class.
pub fn unit_for(class: &str) -> (r: Option<&'static str>)
    ensures
        r == class_unit(class@),
{
    let registry: [(&'static str, &'static str); 8] = CLASS_UNITS;
    let mut i: usize = 0;
    while i < 8
        invariant
            i <= 8,
            registry == CLASS_UNITS,
            forall|j: int| 0 <= j < i ==> #[trigger] CLASS_UNITS@[j].0@ != class@,
        decreases 8 - i,
    {
        if same_text(registry[i].0, class) {
            proof {
                assert(registered_at(class@, i as int));
                registered_once(
                    class@,
                    i as int,
                    choose|k: int| registered_at(class@, k),
                );
            }
            return Some(registry[i].1);
        }
        i = i + 1;
    }
    None
}

} // verus!
