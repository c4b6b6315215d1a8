//! Bring-up decisions of the runtime context: which ports are kernel-side
//! siblings, which queue serves which core, and which cores become active.
use vstd::prelude::*;
use crate::errors::ErrorKind;
use vstd::string::StringSliceAdditionalSpecFns;

verus! {

/// The bytes of a port name before its first `:` (all of them if none).
pub open spec fn name_tag(b: Seq<u8>) -> Seq<u8>
    decreases b.len(),
{
    if b.len() == 0 {
        b
    } else if b.last() == 58u8 && !b.drop_last().contains(58u8) {
        b.drop_last()
    } else if b.drop_last().contains(58u8) {
        name_tag(b.drop_last())
    } else {
        b
    }
}

/// Whether the port name is tagged `kni:` or `virtio:` (or is exactly one of
/// those words).
pub fn is_port_type_kni_or_virtio(name: &str) -> (r: bool)
    ensures
        r == (name_tag(name.spec_bytes()) == seq![107u8, 110u8, 105u8] || name_tag(name.spec_bytes())
            == seq![118u8, 105u8, 114u8, 116u8, 105u8, 111u8]),
{
    let b = name.as_bytes();
    let mut end: usize = 0;
    while end < b.len() && b[end] != 58u8
        invariant
            end <= b@.len(),
            forall|k: int| 0 <= k < end ==> b@[k] != 58u8,
        decreases b@.len() - end,
    {
        end += 1;
    }
    proof {
        lemma_name_tag(b@, end as int);
    }
    let kni = end == 3 && b[0] == 107u8 && b[1] == 110u8 && b[2] == 105u8;
    let virtio = end == 6 && b[0] == 118u8 && b[1] == 105u8 && b[2] == 114u8 && b[3] == 116u8 && b[4] == 105u8
        && b[5] == 111u8;
    proof {
        let t = b@.take(end as int);
        let k = seq![107u8, 110u8, 105u8];
        let v = seq![118u8, 105u8, 114u8, 116u8, 105u8, 111u8];
        if kni {
            assert(t =~= k);
        } else if t == k {
            assert(t.len() == 3);
            assert(t[0] == k[0] && t[1] == k[1] && t[2] == k[2]);
        }
        if virtio {
            assert(t =~= v);
        } else if t == v {
            assert(t.len() == 6);
            assert(t[0] == v[0] && t[1] == v[1] && t[2] == v[2] && t[3] == v[3] && t[4] == v[4] && t[5] == v[5]);
        }
    }
    kni || virtio
}

/// The tag is the prefix before the first `:`.
proof fn lemma_name_tag(b: Seq<u8>, end: int)
    requires
        0 <= end <= b.len(),
        forall|k: int| 0 <= k < end ==> b[k] != 58u8,
        end < b.len() ==> b[end] == 58u8,
    ensures
        name_tag(b) == b.take(end),
    decreases b.len(),
{
    if b.len() == 0 {
        assert(b.take(end) =~= b);
    } else if end == b.len() {
        assert(!b.drop_last().contains(58u8)) by {
            if b.drop_last().contains(58u8) {
                let k = choose|k: int| 0 <= k < b.drop_last().len() && b.drop_last()[k] == 58u8;
                assert(b[k] == 58u8);
            }
        }
        assert(b.take(end) =~= b);
    } else if end == b.len() - 1 {
        assert(!b.drop_last().contains(58u8)) by {
            if b.drop_last().contains(58u8) {
                let k = choose|k: int| 0 <= k < b.drop_last().len() && b.drop_last()[k] == 58u8;
                assert(b[k] == 58u8);
            }
        }
        assert(b.drop_last() =~= b.take(end));
    } else {
        assert(b.drop_last()[end] == 58u8);
        assert(b.drop_last().contains(58u8));
        lemma_name_tag(b.drop_last(), end);
        assert(b.drop_last().take(end) =~= b.take(end));
    }
}

/// The kind of device behind a port.
#[derive(Clone, Copy, Debug, PartialEq, Eq, Structural)]
pub enum PortType {
    Physical,
    Kni,
    Virtio,
    Bess,
    Ovs,
    Null,
}

/// The port kind a name tag announces; an untagged name is a physical
/// device address.
pub open spec fn port_type_spec(tag: Seq<u8>) -> PortType {
    if tag == seq![107u8, 110u8, 105u8] {
        PortType::Kni
    } else if tag == seq![118u8, 105u8, 114u8, 116u8, 105u8, 111u8] {
        PortType::Virtio
    } else if tag == seq![98u8, 101u8, 115u8, 115u8] {
        PortType::Bess
    } else if tag == seq![111u8, 118u8, 115u8] {
        PortType::Ovs
    } else if tag == seq![110u8, 117u8, 108u8, 108u8] {
        PortType::Null
    } else {
        PortType::Physical
    }
}

/// Whether `b` starts with `lit` and has length `len` (`len == lit.len()`).
fn tag_is(b: &[u8], len: usize, lit: &[u8]) -> (r: bool)
    requires
        len <= b@.len(),
    ensures
        r == (b@.take(len as int) == lit@),
{
    if len != lit.len() {
        assert(b@.take(len as int).len() != lit@.len());
        return false;
    }
    let mut i: usize = 0;
    while i < len
        invariant
            i <= len,
            len == lit@.len(),
            len <= b@.len(),
            forall|k: int| 0 <= k < i ==> b@[k] == lit@[k],
        decreases len - i,
    {
        if b[i] != lit[i] {
            assert(b@.take(len as int)[i as int] != lit@[i as int]);
            return false;
        }
        i += 1;
    }
    assert(b@.take(len as int) =~= lit@);
    true
}

/// The kind of device a port name (`kind:spec`) refers to.
pub fn port_type_of(name: &str) -> (r: PortType)
    ensures
        r == port_type_spec(name_tag(name.spec_bytes())),
{
    let b = name.as_bytes();
    let mut end: usize = 0;
    while end < b.len() && b[end] != 58u8
        invariant
            end <= b@.len(),
            forall|k: int| 0 <= k < end ==> b@[k] != 58u8,
        decreases b@.len() - end,
    {
        end += 1;
    }
    proof {
        lemma_name_tag(b@, end as int);
    }
    let kni: [u8; 3] = [107u8, 110u8, 105u8];
    let virtio: [u8; 6] = [118u8, 105u8, 114u8, 116u8, 105u8, 111u8];
    let bess: [u8; 4] = [98u8, 101u8, 115u8, 115u8];
    let ovs: [u8; 3] = [111u8, 118u8, 115u8];
    let null: [u8; 4] = [110u8, 117u8, 108u8, 108u8];
    assert(kni@ =~= seq![107u8, 110u8, 105u8]);
    assert(virtio@ =~= seq![118u8, 105u8, 114u8, 116u8, 105u8, 111u8]);
    assert(bess@ =~= seq![98u8, 101u8, 115u8, 115u8]);
    assert(ovs@ =~= seq![111u8, 118u8, 115u8]);
    assert(null@ =~= seq![110u8, 117u8, 108u8, 108u8]);
    if tag_is(b, end, kni.as_slice()) {
        PortType::Kni
    } else if tag_is(b, end, virtio.as_slice()) {
        PortType::Virtio
    } else if tag_is(b, end, bess.as_slice()) {
        PortType::Bess
    } else if tag_is(b, end, ovs.as_slice()) {
        PortType::Ovs
    } else if tag_is(b, end, null.as_slice()) {
        PortType::Null
    } else {
        PortType::Physical
    }
}

/// Whether `names` holds a name equal to `name`.
pub fn contains_name(names: &Vec<String>, name: &String) -> (r: bool)
    ensures
        r == exists|i: int| 0 <= i < names@.len() && #[trigger] names@[i]@ == name@,
{
    let mut i: usize = 0;
    while i < names.len()
        invariant
            i <= names@.len(),
            forall|k: int| 0 <= k < i ==> #[trigger] names@[k]@ != name@,
        decreases names@.len() - i,
    {
        if names[i] == *name {
            return true;
        }
        i += 1;
    }
    false
}

/// Records a port name of the configuration; one that appears twice is a
/// configuration error, and nothing is recorded then.
pub fn register_port(names: &mut Vec<String>, name: String) -> (r: Result<(), ErrorKind>)
    ensures
        r is Err <==> exists|i: int| 0 <= i < old(names)@.len() && #[trigger] old(names)@[i]@ == name@,
        r is Ok ==> final(names)@ == old(names)@.push(name),
        r is Err ==> final(names)@ == old(names)@ && r matches Err(ErrorKind::ConfigurationError(_)),
{
    if contains_name(names, &name) {
        Err(ErrorKind::ConfigurationError("a port appears twice in the configuration".to_owned()))
    } else {
        names.push(name);
        Ok(())
    }
}

/// The id of the device port a kernel-interface port named `name` is
/// attached to, from the pairs (kernel-interface name, device port id)
/// recorded while the device ports were brought up; the first match wins.
pub fn associated_port(siblings: &Vec<(String, u16)>, name: &String) -> (r: Option<u16>)
    ensures
        r is None <==> forall|i: int| 0 <= i < siblings@.len() ==> (#[trigger] siblings@[i]).0@ != name@,
        r matches Some(id) ==> exists|i: int|
            0 <= i < siblings@.len() && #[trigger] siblings@[i].0@ == name@ && siblings@[i].1 == id && forall|k: int|
                0 <= k < i ==> siblings@[k].0@ != name@,
{
    let mut i: usize = 0;
    while i < siblings.len()
        invariant
            i <= siblings@.len(),
            forall|k: int| 0 <= k < i ==> (#[trigger] siblings@[k]).0@ != name@,
        decreases siblings@.len() - i,
    {
        if siblings[i].0 == *name {
            return Some(siblings[i].1);
        }
        i += 1;
    }
    None
}

/// Pairs each receive queue the driver supports with the core configured
/// for it: queue `i` (for `i` below both counts) serves `rx_cores[i]`.
pub fn queue_assignment(rx_cores: &Vec<i32>, supported_queues: u16) -> (r: Vec<(i32, u16)>)
    ensures
        r@.len() == if rx_cores@.len() < supported_queues {
            rx_cores@.len() as int
        } else {
            supported_queues as int
        },
        forall|i: int| 0 <= i < r@.len() ==> #[trigger] r@[i] == (rx_cores@[i], i as u16),
{
    let n = if rx_cores.len() < supported_queues as usize {
        rx_cores.len()
    } else {
        supported_queues as usize
    };
    let mut r: Vec<(i32, u16)> = Vec::with_capacity(n);
    let mut i: usize = 0;
    while i < n
        invariant
            i <= n,
            n <= rx_cores@.len(),
            n <= supported_queues,
            r@.len() == i,
            forall|k: int| 0 <= k < i ==> #[trigger] r@[k] == (rx_cores@[k], k as u16),
        decreases n - i,
    {
        r.push((rx_cores[i], i as u16));
        i += 1;
    }
    r
}

/// Whether `v` holds `x`.
pub fn contains_core(v: &Vec<i32>, x: i32) -> (r: bool)
    ensures
        r == v@.contains(x),
{
    let mut i: usize = 0;
    while i < v.len()
        invariant
            i <= v@.len(),
            forall|k: int| 0 <= k < i ==> v@[k] != x,
        decreases v@.len() - i,
    {
        if v[i] == x {
            return true;
        }
        i += 1;
    }
    false
}

/// The cores that get a scheduler: the configured ones, then (in lax mode)
/// every core a queue is assigned to that is not among them. In strict mode
/// such a core is a configuration error.
pub fn active_cores(cores: &Vec<i32>, queue_cores: &Vec<i32>, strict: bool) -> (r: Result<Vec<i32>, ErrorKind>)
    ensures
        r is Err <==> strict && exists|i: int| 0 <= i < queue_cores@.len() && !cores@.contains(#[trigger] queue_cores@[i]),
        r matches Ok(a) ==> {
            &&& a@.take(cores@.len() as int) == cores@
            &&& forall|i: int| 0 <= i < queue_cores@.len() ==> a@.contains(#[trigger] queue_cores@[i])
            &&& forall|c: i32| a@.contains(c) ==> cores@.contains(c) || queue_cores@.contains(c)
        },
{
    let mut a: Vec<i32> = Vec::new();
    let mut i: usize = 0;
    while i < cores.len()
        invariant
            i <= cores@.len(),
            a@ == cores@.take(i as int),
        decreases cores@.len() - i,
    {
        a.push(cores[i]);
        i += 1;
        assert(a@ =~= cores@.take(i as int));
    }
    assert(cores@.take(cores@.len() as int) =~= cores@);
    let mut j: usize = 0;
    while j < queue_cores.len()
        invariant
            j <= queue_cores@.len(),
            a@.take(cores@.len() as int) == cores@,
            a@.len() >= cores@.len(),
            forall|k: int| 0 <= k < j ==> a@.contains(#[trigger] queue_cores@[k]),
            forall|c: i32| a@.contains(c) ==> cores@.contains(c) || queue_cores@.contains(c),
            strict ==> forall|k: int| 0 <= k < j ==> cores@.contains(#[trigger] queue_cores@[k]),
            strict ==> a@ == cores@,
        decreases queue_cores@.len() - j,
    {
        let c = queue_cores[j];
        if !contains_core(&a, c) {
            if strict {
                assert(!cores@.contains(c)) by {
                    assert(a@ == cores@);
                }
                return Err(
                    ErrorKind::ConfigurationError(
                        "strict configuration: a port queue is assigned to a core outside the core list".to_owned(),
                    ),
                );
            }
            let ghost before = a@;
            a.push(c);
            proof {
                assert forall|x: i32| a@.contains(x) implies cores@.contains(x) || queue_cores@.contains(x) by {
                    if x != c {
                        let k = choose|k: int| 0 <= k < a@.len() && a@[k] == x;
                        assert(before[k] == x);
                    }
                }
                assert forall|k: int| 0 <= k < j + 1 implies a@.contains(#[trigger] queue_cores@[k]) by {
                    if k < j {
                        let m = choose|m: int| 0 <= m < before.len() && before[m] == queue_cores@[k];
                        assert(a@[m] == queue_cores@[k]);
                    } else {
                        assert(a@[a@.len() - 1] == c);
                    }
                }
                assert(a@.take(cores@.len() as int) =~= before.take(cores@.len() as int));
            }
        } else {
            proof {
                if strict {
                    assert(a@ == cores@);
                }
            }
        }
        j += 1;
    }
    Ok(a)
}

} // verus!
