//! Build-step side of the registration chain: a named invocation list hands
//! out strictly increasing indices, one per declaration site, and emits the
//! source text of the chain declarations — the anchoring definitions, and one
//! linked node per invocation, each amending the node before it.

use crate::decimal::spec_decimal;
use crate::decimal::u64_to_decimal;
use vstd::prelude::*;

verus! {

/// The name of the marker type that anchors the chain of the list named `id`.
pub open spec fn marker_name(id: Seq<char>) -> Seq<char> {
    "__evscode_invokelist_"@ + id
}

/// The emitted anchoring definitions: the marker type and the sentinel
/// implementation that fixes the chain's payload type and provisionally
/// terminates the empty chain.
pub open spec fn base_definitions_text(id: Seq<char>, payload_type: Seq<char>) -> Seq<char> {
    "struct "@ + marker_name(id)
        + "<T>(std::marker::PhantomData<T>);\nimpl<T> evscode::internal::macros::InvocChain<T> for crate::"@
        + marker_name(id) + "<[(); 0]> {\n    type Payload = "@ + payload_type
        + ";\n    fn payload() -> Self::Payload {\n        unreachable!()\n    }\n    default fn is_last() -> bool {\n        true\n    }\n    default type Next = Self;\n}\n"@
}

/// The emitted node for the invocation at index `iid`: a provisionally
/// terminal node carrying the payload expression, plus the amendment that
/// demotes the node at `iid - 1` and links it forward to the new node.
pub open spec fn invoke_text(id: Seq<char>, iid: nat, payload: Seq<char>) -> Seq<char> {
    "impl<T> evscode::internal::macros::InvocChain<T> for crate::"@ + marker_name(id) + "<[(); "@
        + spec_decimal(iid) + "]> {\n    type Payload = <crate::"@ + marker_name(id) + "<[(); "@ + spec_decimal((iid - 1) as nat)
        + "]> as evscode::internal::macros::InvocChain<()>>::Payload;\n    fn payload() -> Self::Payload {\n        "@
        + payload
        + "\n    }\n    default fn is_last() -> bool {\n        true\n    }\n    default type Next = Self;\n}\nimpl evscode::internal::macros::InvocChain<()> for crate::"@
        + marker_name(id) + "<[(); "@ + spec_decimal((iid - 1) as nat)
        + "]> {\n    fn is_last() -> bool {\n        false\n    }\n    type Next = crate::"@
        + marker_name(id) + "<[(); "@ + spec_decimal(iid) + "]>;\n}\n"@
}

/// The emitted collection call for the list named `id`.
pub open spec fn payloads_text(id: Seq<char>) -> Seq<char> {
    "evscode::internal::macros::collect_payloads::<crate::"@ + marker_name(id) + "<[(); 0]>>()"@
}

/// One named invocation list: the build-step sequence allocator of a chain,
/// together with the emitters of that chain's source text.
pub struct InvocationList {
    /// The id naming the chain this list builds.
    pub id: &'static str,
    /// The next index to hand out; 0 is reserved for the sentinel.
    pub counter: u64,
}

impl InvocationList {
    /// The allocator has handed out exactly the indices below `counter`,
    /// starting at 1.
    pub open spec fn wf(self) -> bool {
        1 <= self.counter
    }

    /// A fresh invocation list under `id`: no index handed out yet, the
    /// first registration will receive index 1.
    pub fn new(id: &'static str) -> (r: InvocationList)
        ensures
            r.wf(),
            r.id@ == id@,
            r.counter == 1,
    {
        InvocationList { id, counter: 1 }
    }

    /// The sequence allocator: return the next free index of this list —
    /// 1 on the first call, then strictly increasing, gap-free.
    pub fn next_index(&mut self) -> (iid: u64)
        requires
            old(self).wf(),
            old(self).counter < u64::MAX,
        ensures
            final(self).wf(),
            final(self).id == old(self).id,
            iid == old(self).counter,
            final(self).counter == old(self).counter + 1,
            1 <= iid,
    {
        let iid = self.counter;
        self.counter = self.counter + 1;
        iid
    }

    /// The name of the marker type anchoring this list's chain.
    pub fn marker_struct(&self) -> (r: String)
        ensures
            r@ == marker_name(self.id@),
    {
        let mut s = String::from_str("__evscode_invokelist_");
        s.append(self.id);
        s
    }

    /// Emit the anchoring definitions of this list's chain, fixing
    /// `payload_type` as the payload type every invocation must share.
    pub fn base_definitions(&self, payload_type: &str) -> (r: String)
        ensures
            r@ == base_definitions_text(self.id@, payload_type@),
    {
        let mut s = String::from_str("struct ");
        let marker = self.marker_struct();
        s.append(marker.as_str());
        s.append(
            "<T>(std::marker::PhantomData<T>);\nimpl<T> evscode::internal::macros::InvocChain<T> for crate::",
        );
        s.append(marker.as_str());
        s.append("<[(); 0]> {\n    type Payload = ");
        s.append(payload_type);
        s.append(
            ";\n    fn payload() -> Self::Payload {\n        unreachable!()\n    }\n    default fn is_last() -> bool {\n        true\n    }\n    default type Next = Self;\n}\n",
        );
        s
    }

    /// Emit one invocation: allocate the next index, emit its provisionally
    /// terminal node holding the deferred `payload` expression, and amend the
    /// previous tail to link forward to it.
    pub fn invoke(&mut self, payload: &str) -> (r: String)
        requires
            old(self).wf(),
            old(self).counter < u64::MAX,
        ensures
            final(self).wf(),
            final(self).id == old(self).id,
            final(self).counter == old(self).counter + 1,
            r@ == invoke_text(old(self).id@, old(self).counter as nat, payload@),
    {
        let iid = self.next_index();
        let marker = self.marker_struct();
        let iid_lit = u64_to_decimal(iid);
        let prev_iid_lit = u64_to_decimal(iid - 1);
        let mut s = String::from_str(
            "impl<T> evscode::internal::macros::InvocChain<T> for crate::",
        );
        s.append(marker.as_str());
        s.append("<[(); ");
        s.append(iid_lit.as_str());
        s.append("]> {\n    type Payload = <crate::");
        s.append(marker.as_str());
        s.append("<[(); ");
        s.append(prev_iid_lit.as_str());
        s.append(
            "]> as evscode::internal::macros::InvocChain<()>>::Payload;\n    fn payload() -> Self::Payload {\n        ",
        );
        s.append(payload);
        s.append(
            "\n    }\n    default fn is_last() -> bool {\n        true\n    }\n    default type Next = Self;\n}\nimpl evscode::internal::macros::InvocChain<()> for crate::",
        );
        s.append(marker.as_str());
        s.append("<[(); ");
        s.append(prev_iid_lit.as_str());
        s.append("]> {\n    fn is_last() -> bool {\n        false\n    }\n    type Next = crate::");
        s.append(marker.as_str());
        s.append("<[(); ");
        s.append(iid_lit.as_str());
        s.append("]>;\n}\n");
        s
    }

    /// Emit the call that collects this list's chain into its ordered
    /// payload collection.
    pub fn payloads(&self) -> (r: String)
        ensures
            r@ == payloads_text(self.id@),
    {
        let mut s = String::from_str("evscode::internal::macros::collect_payloads::<crate::");
        let marker = self.marker_struct();
        s.append(marker.as_str());
        s.append("<[(); 0]>>()");
        s
    }
}

} // verus!
