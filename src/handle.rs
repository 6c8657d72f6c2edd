use vstd::prelude::*;

verus! {

/// The identifier that denotes "no object" in the host heap.
pub const NIL: i32 = -1;

/// An owning handle to an object that lives in the host heap.
///
/// It works like a `Box` pointing into host memory: exactly one owning handle
/// stands for each acquisition, and it is the one responsible for releasing the
/// host-side anchor. It is movable but not copyable.
pub struct JsObject(i32);

/// A non-owning view of a host object identifier. Copying it never affects
/// ownership, and no release is ever issued through its lifetime.
#[derive(Clone, Copy)]
pub struct JsObjectWeak(i32);

impl JsObject {
    /// The identifier this handle carries.
    pub closed spec fn id(&self) -> i32 {
        self.0
    }

    /// Takes ownership of an identifier handed out by the host.
    pub fn from_raw(id: i32) -> (r: JsObject)
        ensures
            r.id() == id,
    {
        JsObject(id)
    }

    /// The identifier this handle carries.
    pub fn raw(&self) -> (r: i32)
        ensures
            r == self.id(),
    {
        self.0
    }

    /// A weak reference to the same host object; no ownership is transferred.
    /// Nothing guards the object against the host's collector through it.
    pub fn weak(&self) -> (r: JsObjectWeak)
        ensures
            r.id() == self.id(),
    {
        JsObjectWeak(self.0)
    }

    /// Whether this handle is the nil sentinel, which a host function returning
    /// an object may hand back instead of one.
    pub fn is_nil(&self) -> (r: bool)
        ensures
            r == (self.id() == NIL),
    {
        self.0 == NIL
    }

    /// Makes the possible absence explicit: `None` exactly for the nil sentinel.
    pub fn into_option(self) -> (r: Option<JsObject>)
        ensures
            r is None <==> self.id() == NIL,
            r matches Some(o) ==> o.id() == self.id(),
    {
        if self.0 == NIL {
            None
        } else {
            Some(self)
        }
    }

    /// Ends this owning handle, returning the weak view through which the single
    /// release signal for it is sent. Since the handle is consumed, the signal
    /// can be requested only once per acquisition.
    pub fn release(self) -> (r: JsObjectWeak)
        ensures
            r.id() == self.id(),
    {
        JsObjectWeak(self.0)
    }
}

impl JsObjectWeak {
    /// The identifier this reference carries.
    pub closed spec fn id(&self) -> i32 {
        self.0
    }

    /// The identifier this reference carries.
    pub fn raw(&self) -> (r: i32)
        ensures
            r == self.id(),
    {
        self.0
    }

    /// Whether this reference is the nil sentinel.
    pub fn is_nil(&self) -> (r: bool)
        ensures
            r == (self.id() == NIL),
    {
        self.0 == NIL
    }
}

} // verus!
