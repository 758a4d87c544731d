# openpark

A theme park simulator's rules, proved.

`src/` is the park: the land and its heights, what is built and planted on
it, the rides and the track they are laid from, the books, the payroll, the
lines guests stand in, and what every guest means to do next. Each public
function states what it does in its contract, and the promises that span
several functions (a demolition gives the ground back, a park taken apart
into the parts a save holds is put back together as it was, a bankrupt park
buys nothing, a line holds what its path holds, a fare goes into the ride's
till and the bank together) are stated and proved as proof functions or
contracts beside the code they are about. Turning those parts into JSON and
back, and the file itself, belong to `app/` and are not proved.

`app/` is the game around it: the window, the camera and the drawing, the
command line, reading and writing save files, and the parts of the crowd and
the trains that are measured in fractions — how a guest feels, how far
between two tiles it is, and where a train is on its lap. It hands the
library whole numbers and takes whole numbers back.

`tests/` runs the library on concrete parks.
