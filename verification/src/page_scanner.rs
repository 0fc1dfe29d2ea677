//! Walking the rows of a table, one page at a time.
//!
//! A scanner reads no file. It says which page it wants next, is handed the
//! bytes of that page, and gives out the records of the page one by one. The
//! pages of a table are visited from the root down: under an interior page the
//! children of its cells come first, left to right, and its rightmost child
//! last, so that the rows come out in the order of their row ids.

use crate::cell::{Cell, CellModel, TableInteriorCell};
use crate::page::{decode_page, MyError, Page, PageModel};
use crate::record::{ColumnModel, Record};
use vstd::prelude::*;

verus! {

/// The bytes of the file header, which page 1 holds before its own header.
pub const FIRST_PAGE_SHIFT: u64 = 100;

/// Where in the file the buffer of page `page_num` lies, as offset and length,
/// in a file whose pages have `page_size` bytes: the whole page, but for page
/// 1, whose buffer starts behind the file header. There is none for page 0,
/// for a first page smaller than the file header, and for a page that ends
/// beyond what 64 bits can count.
pub open spec fn page_span(page_num: int, page_size: int) -> Option<(int, int)> {
    if page_num < 1 || page_num * page_size > u64::MAX {
        None
    } else if page_num == 1 {
        if page_size < FIRST_PAGE_SHIFT {
            None
        } else {
            Some((FIRST_PAGE_SHIFT as int, page_size - FIRST_PAGE_SHIFT))
        }
    } else {
        Some(((page_num - 1) * page_size, page_size))
    }
}

/// Where in the file the buffer of page `page_num` lies, as offset and length.
pub fn raw_page_span(page_num: u64, page_size: u64) -> (r: Option<(u64, u64)>)
    ensures
        match r {
            Some((offset, len)) => page_span(page_num as int, page_size as int) == Some(
                (offset as int, len as int),
            ),
            None => page_span(page_num as int, page_size as int) is None,
        },
{
    if page_num < 1 {
        return None;
    }
    let end = match page_num.checked_mul(page_size) {
        Some(end) => end,
        None => {
            return None;
        },
    };
    if page_num == 1 {
        if page_size < FIRST_PAGE_SHIFT {
            None
        } else {
            Some((FIRST_PAGE_SHIFT, page_size - FIRST_PAGE_SHIFT))
        }
    } else {
        assert((page_num - 1) * page_size == page_num * page_size - page_size) by (nonlinear_arith);
        Some((end - page_size, page_size))
    }
}

/// A page and how many of its cells have been given out.
#[derive(Debug, PartialEq, Eq)]
pub struct PositionedPage {
    pub page_num: u64,
    pub page: Option<Page>,
    pub position: u64,
}

impl PositionedPage {
    /// The records that are still to come: those of the cells of a table leaf
    /// page from `position` on. Any other page, or none, has no records.
    pub open spec fn remaining(&self) -> Seq<Record> {
        match self.page {
            Some(Page::TableLeaf(page)) => if self.position <= page.cells@.len() {
                page.cells@.subrange(self.position as int, page.cells@.len() as int).map_values(
                    |c: Cell| c.record,
                )
            } else {
                Seq::empty()
            },
            _ => Seq::empty(),
        }
    }

    /// Gives out the next record of the page, if there is one, and steps past
    /// it.
    pub fn next_record(&mut self) -> (r: Option<Record>)
        ensures
            final(self).page_num == old(self).page_num,
            final(self).page == old(self).page,
            match r {
                Some(record) => {
                    &&& old(self).remaining().len() > 0
                    &&& record@ == old(self).remaining()[0]@
                    &&& final(self).position == old(self).position + 1
                    &&& final(self).remaining() == old(self).remaining().drop_first()
                },
                None => {
                    &&& old(self).remaining().len() == 0
                    &&& final(self).position == old(self).position
                },
            },
    {
        match &self.page {
            Some(Page::TableLeaf(page)) => {
                if self.position < page.cells.len() as u64 {
                    let record = page.cells[self.position as usize].record.clone();
                    self.position = self.position + 1;
                    assert(self.remaining() =~= old(self).remaining().drop_first());
                    Some(record)
                } else {
                    None
                }
            },
            _ => None,
        }
    }
}

/// What a scanner does next.
#[derive(Debug, PartialEq, Eq)]
pub enum ScanStep {
    /// The scanner needs the page of this number: hand it to `load_page`.
    Fetch(u64),
    /// The next row of the table.
    Row(Record),
    /// The table has no more rows.
    Finished,
}

/// The rows of the table whose root is `start_page_num`, as far as they have
/// been reached.
#[derive(Debug, PartialEq, Eq)]
pub struct PageScanner {
    pub start_page_num: u64,
    pub page_size: u64,
    /// The pages that are still to be visited; the last one comes first.
    pub pending: Vec<u64>,
    pub current_position: PositionedPage,
}

/// The children of a table interior page in the order in which a scanner puts
/// them on its list: the rightmost child first and the child of the first cell
/// last, so that the child of the first cell is visited first.
pub open spec fn children_last_first(cells: Seq<TableInteriorCell>, rightmost: u32) -> Seq<u64> {
    seq![rightmost as u64] + Seq::new(
        cells.len(),
        |i: int| cells[cells.len() - 1 - i].left_child_page as u64,
    )
}

impl PageScanner {
    /// A scanner for the table whose root is page `page_num`, in a file whose
    /// pages have `page_size` bytes. It has visited no page yet.
    pub fn from(page_num: u64, page_size: u64) -> (r: PageScanner)
        ensures
            r.start_page_num == page_num,
            r.page_size == page_size,
            r.pending@ == seq![page_num],
            r.current_position == (PositionedPage { page_num, page: None, position: 0 }),
    {
        let mut pending: Vec<u64> = Vec::new();
        pending.push(page_num);
        PageScanner {
            start_page_num: page_num,
            page_size,
            pending,
            current_position: PositionedPage { page_num, page: None, position: 0 },
        }
    }

    /// The next step: a row of the page at hand while it has one, then the
    /// page that is to be visited next, and `Finished` when there is none.
    /// Only a row changes the scanner, which steps past it.
    pub fn get_next_record(&mut self) -> (r: ScanStep)
        ensures
            final(self).start_page_num == old(self).start_page_num,
            final(self).page_size == old(self).page_size,
            final(self).pending == old(self).pending,
            final(self).current_position.page_num == old(self).current_position.page_num,
            final(self).current_position.page == old(self).current_position.page,
            match r {
                ScanStep::Row(record) => {
                    &&& old(self).current_position.remaining().len() > 0
                    &&& record@ == old(self).current_position.remaining()[0]@
                    &&& final(self).current_position.remaining() == old(self).current_position.remaining().drop_first()
                },
                ScanStep::Fetch(page_num) => {
                    &&& old(self).current_position.remaining().len() == 0
                    &&& old(self).pending@.len() > 0
                    &&& page_num == old(self).pending@.last()
                    &&& *final(self) == *old(self)
                },
                ScanStep::Finished => {
                    &&& old(self).current_position.remaining().len() == 0
                    &&& old(self).pending@.len() == 0
                    &&& *final(self) == *old(self)
                },
            },
    {
        match self.current_position.next_record() {
            Some(record) => ScanStep::Row(record),
            None => {
                let n = self.pending.len();
                if n > 0 {
                    ScanStep::Fetch(self.pending[n - 1])
                } else {
                    ScanStep::Finished
                }
            },
        }
    }

    /// Takes `raw`, the buffer of the page that the scanner asked for, which is
    /// the last of `pending`.
    ///
    /// The page leaves the list. A table leaf page becomes the page at hand,
    /// with all its records to come. A table interior page puts its children
    /// on the list, and no page is at hand. An index page has no place in a
    /// table and gives `MyError::InvalidPageType`. After an error, and where
    /// no page was asked for, the scanner is as it was.
    pub fn load_page(&mut self, raw: &[u8]) -> (r: Result<(), MyError>)
        ensures
            final(self).start_page_num == old(self).start_page_num,
            final(self).page_size == old(self).page_size,
            old(self).pending@.len() == 0 ==> r is Ok && *final(self) == *old(self),
            old(self).pending@.len() > 0 ==> match decode_page(
                raw@,
                old(self).pending@.last() as int,
                old(self).page_size as int,
            ) {
                Err(e) => r == Err::<(), MyError>(e) && *final(self) == *old(self),
                Ok(PageModel::TableLeaf(leaf)) => {
                    &&& r is Ok
                    &&& final(self).pending@ == old(self).pending@.drop_last()
                    &&& final(self).current_position.page_num == old(self).pending@.last()
                    &&& final(self).current_position.position == 0
                    &&& final(self).current_position.page matches Some(Page::TableLeaf(p))
                        && p@ == leaf
                },
                Ok(PageModel::TableInterior(interior)) => {
                    &&& r is Ok
                    &&& final(self).pending@ == old(self).pending@.drop_last()
                        + children_last_first(
                        interior.cells,
                        interior.page_header.rightmost_pointer->Some_0,
                    )
                    &&& final(self).current_position == (PositionedPage {
                        page_num: old(self).pending@.last(),
                        page: None,
                        position: 0,
                    })
                },
                Ok(_) => {
                    &&& r == Err::<(), MyError>(MyError::InvalidPageType)
                    &&& *final(self) == *old(self)
                },
            },
    {
        let n = self.pending.len();
        if n == 0 {
            return Ok(());
        }
        let page_num = self.pending[n - 1];
        match Page::from(raw, page_num, self.page_size) {
            Err(e) => Err(e),
            Ok(Page::TableLeaf(leaf)) => {
                self.pending.pop();
                self.current_position = PositionedPage {
                    page_num,
                    page: Some(Page::TableLeaf(leaf)),
                    position: 0,
                };
                Ok(())
            },
            Ok(Page::TableInterior(interior)) => {
                self.pending.pop();
                let ghost rest = self.pending@;
                let rightmost: u32 = match interior.page_header.rightmost_pointer {
                    Some(p) => p,
                    None => 0,
                };
                self.pending.push(rightmost as u64);
                let count = interior.cells.len();
                let mut i: usize = 0;
                while i < count
                    invariant
                        i <= count == interior.cells@.len(),
                        self.pending@ == rest + seq![rightmost as u64] + Seq::new(
                            i as nat,
                            |k: int| interior.cells@[count - 1 - k].left_child_page as u64,
                        ),
                        self.start_page_num == old(self).start_page_num,
                        self.page_size == old(self).page_size,
                        self.current_position == old(self).current_position,
                    decreases count - i,
                {
                    let child = interior.cells[count - 1 - i].left_child_page;
                    self.pending.push(child as u64);
                    i += 1;
                    assert(self.pending@ =~= rest + seq![rightmost as u64] + Seq::new(
                        i as nat,
                        |k: int| interior.cells@[count - 1 - k].left_child_page as u64,
                    ));
                }
                assert(self.pending@ =~= rest + children_last_first(interior.cells@, rightmost));
                self.current_position = PositionedPage { page_num, page: None, position: 0 };
                Ok(())
            },
            Ok(_) => Err(MyError::InvalidPageType),
        }
    }
}

/// What each of `records` stands for.
pub open spec fn rows_of(records: Seq<Record>) -> Seq<Seq<ColumnModel>> {
    records.map_values(|r: Record| r@)
}

/// The bytes of each of `pages`.
pub open spec fn buffers_of(pages: Seq<Vec<u8>>) -> Seq<Seq<u8>> {
    pages.map_values(|p: Vec<u8>| p@)
}

/// What a scanner with the pages `pending` on its list gives out when each
/// page that it asks for is answered with the next of `pages`: the rows, in
/// the order in which they come, and the list it is left with. It goes on
/// until `pages` or its list runs out; the first page that it cannot take
/// decides the error.
#[verifier::opaque]
pub open spec fn scan_of(pending: Seq<u64>, pages: Seq<Seq<u8>>, page_size: int) -> Result<
    (Seq<Seq<ColumnModel>>, Seq<u64>),
    MyError,
>
    decreases pages.len(),
{
    if pages.len() == 0 || pending.len() == 0 {
        Ok((Seq::empty(), pending))
    } else {
        match decode_page(pages[0], pending.last() as int, page_size) {
            Err(e) => Err(e),
            Ok(PageModel::TableLeaf(leaf)) => match scan_of(
                pending.drop_last(),
                pages.drop_first(),
                page_size,
            ) {
                Err(e) => Err(e),
                Ok((rows, left)) => Ok(
                    (leaf.cells.map_values(|c: CellModel| c.record) + rows, left),
                ),
            },
            Ok(PageModel::TableInterior(interior)) => scan_of(
                pending.drop_last() + children_last_first(
                    interior.cells,
                    interior.page_header.rightmost_pointer->Some_0,
                ),
                pages.drop_first(),
                page_size,
            ),
            Ok(_) => Err(MyError::InvalidPageType),
        }
    }
}

/// The outcome `scan` with `front` put before its rows.
pub open spec fn with_front(
    front: Seq<Seq<ColumnModel>>,
    scan: Result<(Seq<Seq<ColumnModel>>, Seq<u64>), MyError>,
) -> Result<(Seq<Seq<ColumnModel>>, Seq<u64>), MyError> {
    match scan {
        Err(e) => Err(e),
        Ok((rows, left)) => Ok((front + rows, left)),
    }
}

/// Rows may be put before an outcome one part after another.
proof fn lemma_front_twice(
    a: Seq<Seq<ColumnModel>>,
    b: Seq<Seq<ColumnModel>>,
    scan: Result<(Seq<Seq<ColumnModel>>, Seq<u64>), MyError>,
)
    ensures
        with_front(a, with_front(b, scan)) == with_front(a + b, scan),
{
    if scan is Ok {
        assert(a + (b + scan->Ok_0.0) =~= (a + b) + scan->Ok_0.0);
    }
}

/// One step of `scan_of`: the page that answers the last of `pending`.
proof fn lemma_scan_step(pending: Seq<u64>, pages: Seq<Seq<u8>>, k: int, page_size: int)
    requires
        0 <= k < pages.len(),
        pending.len() > 0,
    ensures
        scan_of(pending, pages.skip(k), page_size) == match decode_page(
            pages[k],
            pending.last() as int,
            page_size,
        ) {
            Err(e) => Err::<(Seq<Seq<ColumnModel>>, Seq<u64>), MyError>(e),
            Ok(PageModel::TableLeaf(leaf)) => with_front(
                leaf.cells.map_values(|c: CellModel| c.record),
                scan_of(pending.drop_last(), pages.skip(k + 1), page_size),
            ),
            Ok(PageModel::TableInterior(interior)) => scan_of(
                pending.drop_last() + children_last_first(
                    interior.cells,
                    interior.page_header.rightmost_pointer->Some_0,
                ),
                pages.skip(k + 1),
                page_size,
            ),
            Ok(_) => Err::<(Seq<Seq<ColumnModel>>, Seq<u64>), MyError>(MyError::InvalidPageType),
        },
{
    reveal(scan_of);
    assert(pages.skip(k)[0] == pages[k]);
    assert(pages.skip(k).drop_first() =~= pages.skip(k + 1));
}

/// Where the pages or the list have run out, the scan is over.
proof fn lemma_scan_over(pending: Seq<u64>, pages: Seq<Seq<u8>>, page_size: int)
    requires
        pages.len() == 0 || pending.len() == 0,
    ensures
        scan_of(pending, pages, page_size) == Ok::<(Seq<Seq<ColumnModel>>, Seq<u64>), MyError>(
            (Seq::empty(), pending),
        ),
{
    reveal(scan_of);
}

/// The rows of a leaf page that has just been taken are those of its cells.
proof fn lemma_rows_of_leaf(at: PositionedPage)
    requires
        at.position == 0,
        at.page matches Some(Page::TableLeaf(_)),
    ensures
        rows_of(at.remaining()) == at.page->Some_0->TableLeaf_0@.cells.map_values(
            |c: CellModel| c.record,
        ),
{
    let page = at.page->Some_0->TableLeaf_0;
    assert(rows_of(at.remaining()) =~= page@.cells.map_values(|c: CellModel| c.record));
}

impl PageScanner {
    /// Gives out the rows that are to come while each page that the scanner
    /// asks for is answered with the next of `pages`: first the rows of the
    /// page at hand, then what `scan_of` says. The rows are lost where a page
    /// cannot be taken; the scanner then stands before that page.
    pub fn scan(&mut self, pages: &Vec<Vec<u8>>) -> (r: Result<Vec<Record>, MyError>)
        ensures
            final(self).start_page_num == old(self).start_page_num,
            final(self).page_size == old(self).page_size,
            match r {
                Ok(rows) => {
                    &&& scan_of(
                        old(self).pending@,
                        buffers_of(pages@),
                        old(self).page_size as int,
                    ) matches Ok((later, left)) && {
                        &&& rows_of(rows@) == rows_of(old(self).current_position.remaining())
                            + later
                        &&& final(self).pending@ == left
                    }
                    &&& final(self).current_position.remaining().len() == 0
                },
                Err(e) => scan_of(
                    old(self).pending@,
                    buffers_of(pages@),
                    old(self).page_size as int,
                ) == Err::<(Seq<Seq<ColumnModel>>, Seq<u64>), MyError>(e),
            },
    {
        let ghost size = self.page_size as int;
        let ghost all = buffers_of(pages@);
        let ghost whole = with_front(
            rows_of(self.current_position.remaining()),
            scan_of(self.pending@, all, size),
        );
        let mut rows: Vec<Record> = Vec::new();
        let mut served: usize = 0;
        proof {
            assert(all.skip(0) =~= all);
            assert(rows_of(rows@) + rows_of(self.current_position.remaining()) =~= rows_of(
                self.current_position.remaining(),
            ));
        }
        loop
            invariant
                served <= pages@.len(),
                size == self.page_size == old(self).page_size,
                self.start_page_num == old(self).start_page_num,
                all == buffers_of(pages@),
                whole == with_front(
                    rows_of(old(self).current_position.remaining()),
                    scan_of(old(self).pending@, all, size),
                ),
                whole == with_front(
                    rows_of(rows@) + rows_of(self.current_position.remaining()),
                    scan_of(self.pending@, all.skip(served as int), size),
                ),
            decreases pages@.len() - served, self.current_position.remaining().len(),
        {
            let ghost before = rows_of(rows@);
            let ghost at_hand = self.current_position.remaining();
            let ghost pending = self.pending@;
            match self.get_next_record() {
                ScanStep::Row(record) => {
                    proof {
                        assert(rows_of(rows@.push(record)) =~= before.push(record@));
                        assert(before.push(record@) + rows_of(at_hand.drop_first()) =~= before
                            + rows_of(at_hand));
                    }
                    rows.push(record);
                },
                ScanStep::Fetch(_) => {
                    proof {
                        assert(before + rows_of(at_hand) =~= before);
                    }
                    if served == pages.len() {
                        proof {
                            lemma_scan_over(pending, all.skip(served as int), size);
                            assert(before + Seq::<Seq<ColumnModel>>::empty() =~= before);
                        }
                        return Ok(rows);
                    }
                    proof {
                        lemma_scan_step(pending, all, served as int, size);
                    }
                    match self.load_page(pages[served].as_slice()) {
                        Err(e) => {
                            return Err(e);
                        },
                        Ok(_) => {
                            proof {
                                let next = scan_of(self.pending@, all.skip(served + 1), size);
                                if self.current_position.page matches Some(Page::TableLeaf(_)) {
                                    lemma_rows_of_leaf(self.current_position);
                                    lemma_front_twice(
                                        before,
                                        rows_of(self.current_position.remaining()),
                                        next,
                                    );
                                } else {
                                    assert(before + rows_of(self.current_position.remaining())
                                        =~= before);
                                }
                            }
                            served += 1;
                        },
                    }
                },
                ScanStep::Finished => {
                    proof {
                        assert(before + rows_of(at_hand) =~= before);
                        lemma_scan_over(pending, all.skip(served as int), size);
                        assert(before + Seq::<Seq<ColumnModel>>::empty() =~= before);
                    }
                    return Ok(rows);
                },
            }
        }
    }
}

/// A table b-tree as the pages of a file hold it: each node is a page, with
/// its number and its buffer, and an interior node has its children under it,
/// those of its cells from left to right and then its rightmost child.
pub enum TableTree {
    Leaf { page_num: u64, raw: Seq<u8> },
    Interior { page_num: u64, raw: Seq<u8>, children: Seq<TableTree> },
}

impl TableTree {
    /// The number of the page at the root.
    pub open spec fn root(self) -> u64 {
        match self {
            TableTree::Leaf { page_num, .. } => page_num,
            TableTree::Interior { page_num, .. } => page_num,
        }
    }

    /// Whether the pages are what the tree takes them for: a leaf decodes to a
    /// table leaf page, and an interior node to a table interior page whose
    /// cells and rightmost pointer name the children, in their order.
    pub open spec fn holds(self, page_size: int) -> bool
        decreases self,
    {
        match self {
            TableTree::Leaf { page_num, raw } => decode_page(raw, page_num as int, page_size) matches Ok(
                PageModel::TableLeaf(_),
            ),
            TableTree::Interior { page_num, raw, children } => {
                &&& decode_page(raw, page_num as int, page_size) matches Ok(
                    PageModel::TableInterior(page),
                ) && {
                    &&& page.page_header.rightmost_pointer is Some
                    &&& children.len() == page.cells.len() + 1
                    &&& forall|i: int|
                        0 <= i < page.cells.len() ==> (#[trigger] children[i]).root()
                            == page.cells[i].left_child_page
                    &&& children[page.cells.len() as int].root()
                        == page.page_header.rightmost_pointer->Some_0
                }
                &&& forall|i: int| 0 <= i < children.len() ==> (#[trigger] children[i]).holds(page_size)
            },
        }
    }

    /// The rows of the tree from left to right: those of a leaf in the order of
    /// its cells, and under an interior node those of each child in turn.
    pub open spec fn rows(self, page_size: int) -> Seq<Seq<ColumnModel>>
        decreases self, 0nat,
    {
        match self {
            TableTree::Leaf { page_num, raw } => match decode_page(
                raw,
                page_num as int,
                page_size,
            ) {
                Ok(PageModel::TableLeaf(leaf)) => leaf.cells.map_values(|c: CellModel| c.record),
                _ => Seq::empty(),
            },
            TableTree::Interior { children, .. } => rows_from(children, 0, page_size),
        }
    }

    /// The buffers of the pages of the tree, each node before its children,
    /// and the children from left to right.
    pub open spec fn buffers(self) -> Seq<Seq<u8>>
        decreases self, 0nat,
    {
        match self {
            TableTree::Leaf { raw, .. } => seq![raw],
            TableTree::Interior { raw, children, .. } => seq![raw] + buffers_from(children, 0),
        }
    }
}

/// The rows of the trees from the `k`-th on, one tree after another.
pub open spec fn rows_from(trees: Seq<TableTree>, k: int, page_size: int) -> Seq<Seq<ColumnModel>>
    decreases trees, trees.len() - k,
{
    if 0 <= k < trees.len() {
        trees[k].rows(page_size) + rows_from(trees, k + 1, page_size)
    } else {
        Seq::empty()
    }
}

/// The buffers of the trees from the `k`-th on, one tree after another.
pub open spec fn buffers_from(trees: Seq<TableTree>, k: int) -> Seq<Seq<u8>>
    decreases trees, trees.len() - k,
{
    if 0 <= k < trees.len() {
        trees[k].buffers() + buffers_from(trees, k + 1)
    } else {
        Seq::empty()
    }
}

/// The roots of the trees from the `k`-th on, the last tree first: the list of
/// a scanner that has these trees before it.
pub open spec fn roots_last_first(trees: Seq<TableTree>, k: int) -> Seq<u64> {
    Seq::new((trees.len() - k) as nat, |i: int| trees[trees.len() - 1 - i].root())
}

/// A scanner that comes to the root of a tree and is served the pages of the
/// tree, each node before its children, gives out the rows of the tree from
/// left to right and then goes on as if the tree had not been on its list.
pub proof fn lemma_scan_in_order(
    tree: TableTree,
    rest: Seq<u64>,
    more: Seq<Seq<u8>>,
    page_size: int,
)
    requires
        tree.holds(page_size),
    ensures
        scan_of(rest.push(tree.root()), tree.buffers() + more, page_size) == with_front(
            tree.rows(page_size),
            scan_of(rest, more, page_size),
        ),
    decreases tree, 0nat,
{
    let pending = rest.push(tree.root());
    let pages = tree.buffers() + more;
    assert(pending.drop_last() =~= rest);
    lemma_scan_step(pending, pages, 0, page_size);
    assert(pages.skip(0) =~= pages);
    assert(pages.skip(1) =~= pages.drop_first());
    match tree {
        TableTree::Leaf { page_num, raw } => {
            assert(pages.drop_first() =~= more);
        },
        TableTree::Interior { page_num, raw, children } => {
            let page = decode_page(raw, page_num as int, page_size)->Ok_0->TableInterior_0;
            assert(pages.drop_first() =~= buffers_from(children, 0) + more);
            assert(children_last_first(page.cells, page.page_header.rightmost_pointer->Some_0)
                =~= roots_last_first(children, 0));
            lemma_scan_children(children, 0, rest, more, page_size);
        },
    }
}

/// The same of trees that stand on the list together, the `k`-th on top.
pub proof fn lemma_scan_children(
    trees: Seq<TableTree>,
    k: int,
    rest: Seq<u64>,
    more: Seq<Seq<u8>>,
    page_size: int,
)
    requires
        0 <= k <= trees.len(),
        forall|i: int| 0 <= i < trees.len() ==> (#[trigger] trees[i]).holds(page_size),
    ensures
        scan_of(rest + roots_last_first(trees, k), buffers_from(trees, k) + more, page_size)
            == with_front(rows_from(trees, k, page_size), scan_of(rest, more, page_size)),
    decreases trees, trees.len() - k,
{
    let end = scan_of(rest, more, page_size);
    if k < trees.len() {
        let below = rest + roots_last_first(trees, k + 1);
        let later = buffers_from(trees, k + 1) + more;
        lemma_scan_in_order(trees[k], below, later, page_size);
        lemma_scan_children(trees, k + 1, rest, more, page_size);
        lemma_front_twice(trees[k].rows(page_size), rows_from(trees, k + 1, page_size), end);
        assert(below.push(trees[k].root()) =~= rest + roots_last_first(trees, k));
        assert(trees[k].buffers() + later =~= buffers_from(trees, k) + more);
    } else {
        assert(rest + roots_last_first(trees, k) =~= rest);
        assert(buffers_from(trees, k) + more =~= more);
        if end is Ok {
            assert(Seq::<Seq<ColumnModel>>::empty() + end->Ok_0.0 =~= end->Ok_0.0);
        }
    }
}

/// A scanner of a table that is served the pages of its tree gives out the
/// rows of the tree from left to right, and has no page left to ask for.
pub proof fn lemma_scan_whole_table(tree: TableTree, page_size: int)
    requires
        tree.holds(page_size),
    ensures
        scan_of(seq![tree.root()], tree.buffers(), page_size) == Ok::<
            (Seq<Seq<ColumnModel>>, Seq<u64>),
            MyError,
        >((tree.rows(page_size), Seq::<u64>::empty())),
{
    lemma_scan_in_order(tree, Seq::empty(), Seq::empty(), page_size);
    lemma_scan_over(Seq::empty(), Seq::empty(), page_size);
    assert(Seq::<u64>::empty().push(tree.root()) =~= seq![tree.root()]);
    assert(tree.buffers() + Seq::<Seq<u8>>::empty() =~= tree.buffers());
    assert(tree.rows(page_size) + Seq::<Seq<ColumnModel>>::empty() =~= tree.rows(page_size));
}

} // verus!
