use vstd::prelude::*;

verus! {

/// One key/value tag as the provider reports it: either side may be absent.
#[derive(Clone)]
pub struct Tag {
    pub key: Option<String>,
    pub value: Option<String>,
}

/// The mathematical content of a [`Tag`]: both sides as character sequences.
pub ghost struct TagModel {
    pub key: Option<Seq<char>>,
    pub value: Option<Seq<char>>,
}

impl View for Tag {
    type V = TagModel;

    open spec fn view(&self) -> TagModel {
        TagModel { key: self.key.deep_view(), value: self.value.deep_view() }
    }
}

impl DeepView for Tag {
    type V = TagModel;

    open spec fn deep_view(&self) -> TagModel {
        self.view()
    }
}

/// One virtual-machine instance as the provider describes it, reduced to the
/// fields the pipeline reads: its identity, its tags, and its two addresses.
/// Treated as immutable once fetched.
#[derive(Clone)]
pub struct InstanceRecord {
    pub instance_id: Option<String>,
    pub tags: Option<Vec<Tag>>,
    pub public_ip_address: Option<String>,
    pub private_ip_address: Option<String>,
}

/// The mathematical content of an [`InstanceRecord`].
pub ghost struct RecordModel {
    pub instance_id: Option<Seq<char>>,
    pub tags: Option<Seq<TagModel>>,
    pub public_ip_address: Option<Seq<char>>,
    pub private_ip_address: Option<Seq<char>>,
}

impl View for InstanceRecord {
    type V = RecordModel;

    open spec fn view(&self) -> RecordModel {
        RecordModel {
            instance_id: self.instance_id.deep_view(),
            tags: self.tags.deep_view(),
            public_ip_address: self.public_ip_address.deep_view(),
            private_ip_address: self.private_ip_address.deep_view(),
        }
    }
}

impl DeepView for InstanceRecord {
    type V = RecordModel;

    open spec fn deep_view(&self) -> RecordModel {
        self.view()
    }
}

/// Whether the optional string `a` holds exactly the string `b`.
pub(crate) fn opt_string_is(a: &Option<String>, b: &String) -> (r: bool)
    ensures
        r == (a.deep_view() == Some(b@)),
{
    match a.as_ref() {
        Some(x) => {
            let m = *x == *b;
            proof {
                assert(a.deep_view() == Some(x@));
            }
            m
        },
        None => {
            proof {
                assert(a.deep_view() is None);
            }
            false
        },
    }
}

impl InstanceRecord {
    /// The address that the final selection prints: the public one when
    /// `public` is set, the private one otherwise.
    pub fn address(&self, public: bool) -> (r: Option<&String>)
        ensures
            match r {
                Some(a) => if public {
                    self@.public_ip_address == Some(a@)
                } else {
                    self@.private_ip_address == Some(a@)
                },
                None => if public {
                    self@.public_ip_address is None
                } else {
                    self@.private_ip_address is None
                },
            },
    {
        if public {
            self.public_ip_address.as_ref()
        } else {
            self.private_ip_address.as_ref()
        }
    }
}

} // verus!
